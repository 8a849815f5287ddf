//! Character-level helpers shared by the table parsers: comma-separated
//! fields, decimal integers, and the decimal rendering of numbers.

use vstd::prelude::*;
use vstd::string::*;

verus! {

/// Half-open range `[start, end)` of character positions.
#[derive(Clone, Copy, Debug, PartialEq, Eq, Structural)]
pub struct Span {
    pub start: usize,
    pub end: usize,
}

impl Span {
    /// The characters of `s` that the span covers.
    pub open spec fn of(self, s: Seq<char>) -> Seq<char> {
        s.subrange(self.start as int, self.end as int)
    }

    /// Whether the span lies within `s`.
    pub open spec fn within(self, s: Seq<char>) -> bool {
        self.start <= self.end <= s.len()
    }
}

/// The characters of `s`, in order.
pub fn chars_of(s: &str) -> (out: Vec<char>)
    ensures
        out@ == s@,
{
    let mut out: Vec<char> = Vec::new();
    for c in it: s.chars()
        invariant
            out@ == it.seq().take(it.index() as int),
            it.seq() == s@,
    {
        out.push(c);
    }
    out
}

/// Number of characters before the first comma of `s` (all of them when
/// there is no comma).
pub open spec fn field_len(s: Seq<char>) -> nat
    decreases s.len(),
{
    if s.len() == 0 || s[0] == ',' {
        0
    } else {
        1 + field_len(s.drop_first())
    }
}

/// The comma-separated fields of `s`, up to and excluding the first empty
/// one. Everything after an empty field is ignored.
pub open spec fn leading_fields(s: Seq<char>) -> Seq<Seq<char>>
    decreases s.len(),
{
    let n = field_len(s);
    if n == 0 {
        Seq::empty()
    } else if n >= s.len() {
        seq![s]
    } else {
        seq![s.take(n as int)].add(leading_fields(s.skip(n as int + 1)))
    }
}

/// `field_len` is the position of the first comma.
pub proof fn lemma_field_len(s: Seq<char>, n: nat)
    requires
        n <= s.len(),
        forall|k: int| 0 <= k < n ==> s[k] != ',',
        n == s.len() || s[n as int] == ',',
    ensures
        field_len(s) == n,
    decreases n,
{
    if n > 0 {
        let t = s.drop_first();
        assert forall|k: int| 0 <= k < n - 1 implies t[k] != ',' by {
            assert(t[k] == s[k + 1]);
        }
        lemma_field_len(t, (n - 1) as nat);
    }
}

/// Splits `chars` into its leading non-empty comma-separated fields.
pub fn split_fields(chars: &Vec<char>) -> (spans: Vec<Span>)
    ensures
        spans@.len() == leading_fields(chars@).len(),
        forall|i: int|
            0 <= i < spans@.len() ==> (#[trigger] spans@[i]).within(chars@) && spans@[i].of(chars@)
                == leading_fields(chars@)[i],
{
    let mut spans: Vec<Span> = Vec::new();
    let n = chars.len();
    let mut pos: usize = 0;
    let mut done = false;
    proof {
        assert(chars@.skip(0) =~= chars@);
        assert(Seq::new(0, |i: int| spans@[i].of(chars@)).add(leading_fields(chars@))
            =~= leading_fields(chars@));
    }
    while !done
        invariant
            n == chars@.len(),
            pos <= n,
            !done ==> leading_fields(chars@) == Seq::new(
                spans@.len(),
                |i: int| spans@[i].of(chars@),
            ).add(leading_fields(chars@.skip(pos as int))),
            done ==> leading_fields(chars@) == Seq::new(
                spans@.len(),
                |i: int| spans@[i].of(chars@),
            ),
            forall|i: int| 0 <= i < spans@.len() ==> (#[trigger] spans@[i]).within(chars@),
        decreases n - pos + (if done { 0int } else { 1int }),
    {
        let start = pos;
        let mut end = pos;
        while end < n && chars[end] != ','
            invariant
                n == chars@.len(),
                start <= end <= n,
                forall|k: int| start <= k < end ==> chars@[k] != ',',
            decreases n - end,
        {
            end += 1;
        }
        let ghost rest = chars@.skip(start as int);
        let ghost prior = Seq::new(spans@.len(), |i: int| spans@[i].of(chars@));
        proof {
            lemma_field_len(rest, (end - start) as nat);
        }
        if end == start {
            done = true;
            proof {
                assert(leading_fields(rest) == Seq::<Seq<char>>::empty());
                assert(prior.add(Seq::<Seq<char>>::empty()) =~= prior);
            }
        } else {
            let ghost old_spans = spans@;
            spans.push(Span { start, end });
            proof {
                let now = Seq::new(spans@.len(), |i: int| spans@[i].of(chars@));
                let piece = chars@.subrange(start as int, end as int);
                assert(rest.take(end - start) =~= piece);
                assert(now =~= prior.push(piece));
                if end == n {
                    assert(rest =~= piece);
                    assert(leading_fields(rest) == seq![rest]);
                    assert(prior.add(seq![piece]) =~= now);
                } else {
                    assert(rest.skip(end - start + 1) =~= chars@.skip(end + 1));
                    assert(prior.add(seq![piece].add(leading_fields(chars@.skip(end + 1))))
                        =~= now.add(leading_fields(chars@.skip(end + 1))));
                }
            }
            if end == n {
                done = true;
                pos = n;
            } else {
                pos = end + 1;
            }
        }
    }
    proof {
        let got = Seq::new(spans@.len(), |i: int| spans@[i].of(chars@));
        assert forall|i: int| 0 <= i < spans@.len() implies spans@[i].of(chars@)
            == leading_fields(chars@)[i] by {
            assert(got[i] == spans@[i].of(chars@));
        }
    }
    spans
}

/// Whether `c` is one of the ten ASCII decimal digits.
pub open spec fn is_digit(c: char) -> bool {
    '0' <= c <= '9'
}

/// The value of the decimal digit `c`.
pub open spec fn digit_of(c: char) -> nat {
    (c as int - '0' as int) as nat
}

/// Whether `s` holds decimal digits and nothing else.
pub open spec fn all_digits(s: Seq<char>) -> bool {
    forall|i: int| 0 <= i < s.len() ==> is_digit(#[trigger] s[i])
}

/// The number that the digit string `s` writes in base ten.
pub open spec fn digits_value(s: Seq<char>) -> nat
    decreases s.len(),
{
    if s.len() == 0 {
        0
    } else {
        digits_value(s.drop_last()) * 10 + digit_of(s.last())
    }
}

/// The number written by an optional `+` followed by one or more digits.
pub open spec fn unsigned_value(s: Seq<char>) -> Option<nat> {
    let body = if s.len() > 0 && s[0] == '+' {
        s.skip(1)
    } else {
        s
    };
    if body.len() > 0 && all_digits(body) {
        Some(digits_value(body))
    } else {
        None
    }
}

/// The number written by an optional `+` or `-` followed by one or more
/// digits.
pub open spec fn signed_value(s: Seq<char>) -> Option<int> {
    if s.len() > 0 && s[0] == '-' {
        let body = s.skip(1);
        if body.len() > 0 && all_digits(body) {
            Some(-(digits_value(body) as int))
        } else {
            None
        }
    } else {
        match unsigned_value(s) {
            Some(v) => Some(v as int),
            None => None,
        }
    }
}

/// `s` read as an `i32`: a signed decimal number that fits.
pub open spec fn parse_i32(s: Seq<char>) -> Option<i32> {
    match signed_value(s) {
        Some(v) => if i32::MIN <= v <= i32::MAX {
            Some(v as i32)
        } else {
            None
        },
        None => None,
    }
}

/// `s` read as a `u32`: an unsigned decimal number that fits.
pub open spec fn parse_u32(s: Seq<char>) -> Option<u32> {
    match unsigned_value(s) {
        Some(v) => if v <= u32::MAX {
            Some(v as u32)
        } else {
            None
        },
        None => None,
    }
}

/// `s` read as a `usize`: an unsigned decimal number that fits.
pub open spec fn parse_usize(s: Seq<char>) -> Option<usize> {
    match unsigned_value(s) {
        Some(v) => if v <= usize::MAX {
            Some(v as usize)
        } else {
            None
        },
        None => None,
    }
}

/// A prefix of a digit string never writes a larger number than the whole.
pub proof fn lemma_prefix_value(s: Seq<char>, k: int)
    requires
        0 <= k <= s.len(),
    ensures
        digits_value(s.take(k)) <= digits_value(s),
    decreases s.len() - k,
{
    if k == s.len() {
        assert(s.take(k) =~= s);
    } else {
        lemma_prefix_value(s, k + 1);
        assert(s.take(k + 1).drop_last() =~= s.take(k));
    }
}

/// Reads the digits of `chars[start..end]` as a number no larger than
/// `limit`.
fn read_magnitude(chars: &Vec<char>, start: usize, end: usize, limit: u64) -> (res: Option<u64>)
    requires
        start <= end <= chars@.len(),
    ensures
        res == (if start < end && all_digits(chars@.subrange(start as int, end as int))
            && digits_value(chars@.subrange(start as int, end as int)) <= limit {
            Some(digits_value(chars@.subrange(start as int, end as int)) as u64)
        } else {
            None
        }),
{
    if start >= end {
        return None;
    }
    let ghost body = chars@.subrange(start as int, end as int);
    let mut acc: u64 = 0;
    let mut i: usize = start;
    while i < end
        invariant
            start <= i <= end <= chars@.len(),
            body == chars@.subrange(start as int, end as int),
            all_digits(body.take(i - start)),
            acc == digits_value(body.take(i - start)),
            acc <= limit,
        decreases end - i,
    {
        let c = chars[i];
        if !(c >= '0' && c <= '9') {
            proof {
                assert(body[i - start] == c);
            }
            return None;
        }
        let d: u64 = (c as u32 - '0' as u32) as u64;
        let next: u128 = acc as u128 * 10 + d as u128;
        proof {
            let head = body.take(i - start + 1);
            assert(head.drop_last() =~= body.take(i - start));
            assert(head.last() == c);
            assert(next == digits_value(head));
            assert forall|j: int| 0 <= j < head.len() implies is_digit(#[trigger] head[j]) by {
                if j < i - start {
                    assert(body.take(i - start)[j] == head[j]);
                }
            }
        }
        if next > limit as u128 {
            proof {
                lemma_prefix_value(body, i - start + 1);
            }
            return None;
        }
        acc = next as u64;
        i += 1;
    }
    proof {
        assert(body.take(end - start) =~= body);
    }
    Some(acc)
}

/// Reads the field `span` of `chars` as an `i32`.
pub fn read_i32(chars: &Vec<char>, span: Span) -> (res: Option<i32>)
    requires
        span.within(chars@),
    ensures
        res == parse_i32(span.of(chars@)),
{
    let ghost s = span.of(chars@);
    if span.start < span.end && chars[span.start] == '-' {
        proof {
            assert(s[0] == '-');
            assert(s.skip(1) =~= chars@.subrange(span.start + 1, span.end as int));
        }
        match read_magnitude(chars, span.start + 1, span.end, 2147483648) {
            Some(m) => Some((-(m as i64)) as i32),
            None => None,
        }
    } else {
        let from = if span.start < span.end && chars[span.start] == '+' {
            span.start + 1
        } else {
            span.start
        };
        proof {
            if span.start < span.end {
                assert(s[0] == chars@[span.start as int]);
            }
            if from == span.start {
                assert(s =~= chars@.subrange(from as int, span.end as int));
            } else {
                assert(s.skip(1) =~= chars@.subrange(from as int, span.end as int));
            }
        }
        match read_magnitude(chars, from, span.end, 2147483647) {
            Some(m) => Some(m as i32),
            None => None,
        }
    }
}

/// Reads the digits after an optional `+` in the field `span` of `chars`.
fn read_unsigned(chars: &Vec<char>, span: Span, limit: u64) -> (res: Option<u64>)
    requires
        span.within(chars@),
    ensures
        res == (match unsigned_value(span.of(chars@)) {
            Some(v) => if v <= limit {
                Some(v as u64)
            } else {
                None
            },
            None => None,
        }),
{
    let ghost s = span.of(chars@);
    let from = if span.start < span.end && chars[span.start] == '+' {
        span.start + 1
    } else {
        span.start
    };
    proof {
        if span.start < span.end {
            assert(s[0] == chars@[span.start as int]);
        }
        if from == span.start {
            assert(s =~= chars@.subrange(from as int, span.end as int));
        } else {
            assert(s.skip(1) =~= chars@.subrange(from as int, span.end as int));
        }
    }
    read_magnitude(chars, from, span.end, limit)
}

/// Reads the field `span` of `chars` as a `u32`.
pub fn read_u32(chars: &Vec<char>, span: Span) -> (res: Option<u32>)
    requires
        span.within(chars@),
    ensures
        res == parse_u32(span.of(chars@)),
{
    match read_unsigned(chars, span, 4294967295) {
        Some(m) => Some(m as u32),
        None => None,
    }
}

/// Reads the field `span` of `chars` as a `usize`.
pub fn read_usize(chars: &Vec<char>, span: Span) -> (res: Option<usize>)
    requires
        span.within(chars@),
    ensures
        res == parse_usize(span.of(chars@)),
{
    match read_unsigned(chars, span, usize::MAX as u64) {
        Some(m) => Some(m as usize),
        None => None,
    }
}

/// The character that writes the digit `d`.
pub open spec fn digit_char(d: nat) -> char {
    if d == 0 {
        '0'
    } else if d == 1 {
        '1'
    } else if d == 2 {
        '2'
    } else if d == 3 {
        '3'
    } else if d == 4 {
        '4'
    } else if d == 5 {
        '5'
    } else if d == 6 {
        '6'
    } else if d == 7 {
        '7'
    } else if d == 8 {
        '8'
    } else {
        '9'
    }
}

/// `n` written in base ten, without sign or leading zeros.
pub open spec fn decimal(n: nat) -> Seq<char>
    decreases n,
{
    if n < 10 {
        seq![digit_char(n)]
    } else {
        decimal(n / 10).push(digit_char(n % 10))
    }
}

fn digit_text(d: u8) -> (s: &'static str)
    requires
        d < 10,
    ensures
        s@ == seq![digit_char(d as nat)],
{
    proof {
        reveal_strlit("0");
        reveal_strlit("1");
        reveal_strlit("2");
        reveal_strlit("3");
        reveal_strlit("4");
        reveal_strlit("5");
        reveal_strlit("6");
        reveal_strlit("7");
        reveal_strlit("8");
        reveal_strlit("9");
    }
    let s = match d {
        0 => "0",
        1 => "1",
        2 => "2",
        3 => "3",
        4 => "4",
        5 => "5",
        6 => "6",
        7 => "7",
        8 => "8",
        _ => "9",
    };
    assert(s@ =~= seq![digit_char(d as nat)]);
    s
}

/// Appends `n`, written in base ten, to `out`.
pub fn push_decimal(out: &mut String, n: u128)
    ensures
        final(out)@ == old(out)@ + decimal(n as nat),
    decreases n,
{
    let ghost before = out@;
    if n >= 10 {
        push_decimal(out, n / 10);
    }
    out.append(digit_text((n % 10) as u8));
    assert(out@ =~= before + decimal(n as nat));
}

/// Appends the characters of `text` that `span` covers to `out`.
pub fn push_span(out: &mut String, text: &str, span: Span)
    requires
        span.within(text@),
    ensures
        final(out)@ == old(out)@ + span.of(text@),
{
    out.append(text.substring_char(span.start, span.end));
}

/// Whether `chars[from..from + piece.len()]` is `piece`.
pub fn holds_at(chars: &Vec<char>, from: usize, piece: &Vec<char>) -> (ok: bool)
    requires
        from + piece@.len() <= chars@.len(),
    ensures
        ok == (chars@.subrange(from as int, from + piece@.len()) == piece@),
{
    let n = piece.len();
    let total = chars.len();
    let mut i: usize = 0;
    while i < n
        invariant
            n == piece@.len(),
            total == chars@.len(),
            i <= n,
            from + n <= chars@.len(),
            forall|k: int| 0 <= k < i ==> chars@[from + k] == piece@[k],
        decreases n - i,
    {
        if chars[from + i] != piece[i] {
            proof {
                assert(chars@.subrange(from as int, from + n)[i as int] == chars@[from + i]);
            }
            return false;
        }
        i += 1;
    }
    assert(chars@.subrange(from as int, from + n) =~= piece@);
    true
}

} // verus!
