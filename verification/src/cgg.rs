//! The part-geometry table: one line per frame template, each line an
//! anchor, a part count and eleven numbers per part.

use vstd::prelude::*;
use vstd::string::*;
use crate::error::FfbeError;
use crate::text::{
    chars_of, decimal, leading_fields, parse_i32, parse_u32, parse_usize, push_decimal, push_span,
    read_i32, read_u32, read_usize, split_fields, Span,
};

verus! {

/// One visual layer of a frame template.
#[derive(Clone, Copy, Debug, Default, PartialEq, Eq, Structural)]
pub struct PartData {
    pub anchor: i32,
    pub x_pos: i32,
    pub y_pos: i32,
    pub next_type: i32,
    pub blend_mode: i32,
    pub opacity: i32,
    pub rotate: i32,
    pub img_x: u32,
    pub img_y: u32,
    pub img_width: u32,
    pub img_height: u32,
    pub page_id: u32,
    pub index: usize,
    pub flip_x: bool,
    pub flip_y: bool,
    pub line_index: usize,
}

/// The parts of one frame template, bottom layer first.
pub type FrameParts = Vec<PartData>;

/// How many numbers describe one part.
pub const PART_FIELDS: usize = 11;

impl PartData {
    /// The mirroring flags say what `next_type` encodes: 1 and 3 mirror
    /// horizontally, 2 and 3 vertically, every other code neither.
    pub open spec fn flags_agree(self) -> bool {
        &&& self.flip_x == (self.next_type == 1 || self.next_type == 3)
        &&& self.flip_y == (self.next_type == 2 || self.next_type == 3)
    }
}

/// What one line of the table amounts to.
pub enum LineOutcome {
    /// No frame template: the caller passes over the line.
    Skip,
    /// A frame template with these parts, in paint order.
    Parts(Seq<PartData>),
    /// A malformed line, with the text of the report.
    Invalid(Seq<char>),
}

/// The name of the `k`-th number of a part.
pub open spec fn field_name(k: int) -> Seq<char> {
    if k == 0 {
        "x_pos"@
    } else if k == 1 {
        "y_pos"@
    } else if k == 2 {
        "next_type"@
    } else if k == 3 {
        "blend_mode"@
    } else if k == 4 {
        "opacity"@
    } else if k == 5 {
        "rotate"@
    } else if k == 6 {
        "img_x"@
    } else if k == 7 {
        "img_y"@
    } else if k == 8 {
        "img_width"@
    } else if k == 9 {
        "img_height"@
    } else {
        "page_id"@
    }
}

/// The report for a field that is not a number of its type. Lines are
/// counted from one.
pub open spec fn field_error_text(name: Seq<char>, row: usize, value: Seq<char>) -> Seq<char> {
    "Invalid "@ + name + " value at line "@ + decimal((row + 1) as nat) + ": '"@ + value + "'"@
}

/// The report for a part described by `got` numbers instead of eleven.
pub open spec fn chunk_error_text(row: usize, got: nat) -> Seq<char> {
    "Invalid chunk format at line "@ + decimal((row + 1) as nat) + ": expected 11 fields, got "@
        + decimal(got)
}

/// Whether the `k`-th number of a part reads as its type: the first six
/// are signed, the last five unsigned.
pub open spec fn field_ok(chunk: Seq<Seq<char>>, k: int) -> bool {
    if k < 6 {
        parse_i32(chunk[k]) is Some
    } else {
        parse_u32(chunk[k]) is Some
    }
}

/// The position of the first number of `chunk` that does not read, or 11.
pub open spec fn first_bad(chunk: Seq<Seq<char>>) -> int {
    if !field_ok(chunk, 0) {
        0
    } else if !field_ok(chunk, 1) {
        1
    } else if !field_ok(chunk, 2) {
        2
    } else if !field_ok(chunk, 3) {
        3
    } else if !field_ok(chunk, 4) {
        4
    } else if !field_ok(chunk, 5) {
        5
    } else if !field_ok(chunk, 6) {
        6
    } else if !field_ok(chunk, 7) {
        7
    } else if !field_ok(chunk, 8) {
        8
    } else if !field_ok(chunk, 9) {
        9
    } else if !field_ok(chunk, 10) {
        10
    } else {
        11
    }
}

/// The part that the eleven numbers of `chunk` describe.
pub open spec fn part_of(anchor: i32, chunk: Seq<Seq<char>>, index: usize, row: usize) -> PartData {
    let next_type = parse_i32(chunk[2]).unwrap();
    PartData {
        anchor,
        x_pos: parse_i32(chunk[0]).unwrap(),
        y_pos: parse_i32(chunk[1]).unwrap(),
        next_type,
        blend_mode: parse_i32(chunk[3]).unwrap(),
        opacity: parse_i32(chunk[4]).unwrap(),
        rotate: parse_i32(chunk[5]).unwrap(),
        img_x: parse_u32(chunk[6]).unwrap(),
        img_y: parse_u32(chunk[7]).unwrap(),
        img_width: parse_u32(chunk[8]).unwrap(),
        img_height: parse_u32(chunk[9]).unwrap(),
        page_id: parse_u32(chunk[10]).unwrap(),
        index,
        flip_x: next_type == 1 || next_type == 3,
        flip_y: next_type == 2 || next_type == 3,
        line_index: row,
    }
}

/// Puts `parts` in front of the parts of `outcome`, if it has any.
pub open spec fn prepend(parts: Seq<PartData>, outcome: LineOutcome) -> LineOutcome {
    match outcome {
        LineOutcome::Parts(more) => LineOutcome::Parts(parts + more),
        other => other,
    }
}

/// Reads `rest` in groups of `size` fields, in line order. Every group
/// must hold exactly eleven numbers; the first one that does not, or the
/// first number that does not read, ends the line with a report.
pub open spec fn chunks_outcome(
    anchor: i32,
    rest: Seq<Seq<char>>,
    size: nat,
    index: nat,
    row: usize,
) -> LineOutcome
    decreases rest.len(),
{
    if rest.len() == 0 {
        LineOutcome::Parts(Seq::empty())
    } else if size != 11 || rest.len() < 11 {
        LineOutcome::Invalid(
            chunk_error_text(
                row,
                if size < rest.len() {
                    size
                } else {
                    rest.len()
                },
            ),
        )
    } else {
        let chunk = rest.take(11);
        let bad = first_bad(chunk);
        if bad < 11 {
            LineOutcome::Invalid(field_error_text(field_name(bad), row, chunk[bad]))
        } else {
            prepend(
                seq![part_of(anchor, chunk, index as usize, row)],
                chunks_outcome(anchor, rest.skip(11), size, index + 1, row),
            )
        }
    }
}

/// The parts of `outcome`, if it has any, in the opposite order: a line
/// lists the topmost layer first, and the bottom layer is painted first.
pub open spec fn in_paint_order(outcome: LineOutcome) -> LineOutcome {
    match outcome {
        LineOutcome::Parts(parts) => LineOutcome::Parts(parts.reverse()),
        other => other,
    }
}

/// The `k`-th of `fields`, or nothing where there are not that many: a
/// field that is missing reads like one that is empty.
pub open spec fn field_or_empty(fields: Seq<Seq<char>>, k: int) -> Seq<char> {
    if 0 <= k < fields.len() {
        fields[k]
    } else {
        Seq::empty()
    }
}

/// What the line `text`, found at the zero-based position `row`, amounts
/// to. A line must start with an anchor and a part count: one that is
/// missing is reported like one that is not a number. A line with too few
/// fields to give each announced part at least one is passed over. A part
/// count of zero is read with groups of one field, so that a line
/// announcing no parts is an empty frame template exactly when nothing
/// follows the count.
pub open spec fn line_outcome(text: Seq<char>, row: usize) -> LineOutcome {
    let fields = leading_fields(text);
    let anchor_text = field_or_empty(fields, 0);
    let count_text = field_or_empty(fields, 1);
    match parse_i32(anchor_text) {
        None => LineOutcome::Invalid(field_error_text("anchor"@, row, anchor_text)),
        Some(anchor) => match parse_usize(count_text) {
            None => LineOutcome::Invalid(field_error_text("count"@, row, count_text)),
            Some(count) => {
                let rest = fields.skip(2);
                let size = if count == 0 {
                    1
                } else {
                    rest.len() / (count as nat)
                };
                if size == 0 {
                    LineOutcome::Skip
                } else {
                    in_paint_order(chunks_outcome(anchor, rest, size, 0, row))
                }
            },
        },
    }
}

/// Whether `res` is what `outcome` asks `process` to return.
pub open spec fn agrees(res: Result<Option<FrameParts>, FfbeError>, outcome: LineOutcome) -> bool {
    match outcome {
        LineOutcome::Skip => res matches Ok(None),
        LineOutcome::Parts(parts) => res matches Ok(Some(v)) && v@ == parts,
        LineOutcome::Invalid(report) => res matches Err(e) && e.is_parse_error(report),
    }
}

fn field_error(name: &str, row: usize, text: &str, span: Span) -> (e: FfbeError)
    requires
        span.within(text@),
    ensures
        e.is_parse_error(field_error_text(name@, row, span.of(text@))),
{
    let mut m = String::from_str("Invalid ");
    m.append(name);
    m.append(" value at line ");
    push_decimal(&mut m, row as u128 + 1);
    m.append(": '");
    push_span(&mut m, text, span);
    m.append("'");
    FfbeError::ParseError(m)
}

fn chunk_error(row: usize, got: usize) -> (e: FfbeError)
    ensures
        e.is_parse_error(chunk_error_text(row, got as nat)),
{
    let mut m = String::from_str("Invalid chunk format at line ");
    push_decimal(&mut m, row as u128 + 1);
    m.append(": expected 11 fields, got ");
    push_decimal(&mut m, got as u128);
    FfbeError::ParseError(m)
}

/// Reads the eleven numbers that start at field `base`.
fn read_part(
    text: &str,
    chars: &Vec<char>,
    spans: &Vec<Span>,
    base: usize,
    anchor: i32,
    index: usize,
    row: usize,
) -> (res: Result<PartData, FfbeError>)
    requires
        chars@ == text@,
        base + 11 <= spans@.len() <= usize::MAX,
        forall|i: int| 0 <= i < spans@.len() ==> (#[trigger] spans@[i]).within(chars@),
    ensures
        ({
            let chunk = Seq::new(11, |k: int| spans@[base + k].of(chars@));
            match res {
                Ok(part) => first_bad(chunk) == 11 && part == part_of(anchor, chunk, index, row),
                Err(e) => first_bad(chunk) < 11 && e.is_parse_error(
                    field_error_text(field_name(first_bad(chunk)), row, chunk[first_bad(chunk)]),
                ),
            }
        }),
{
    let x_pos = match read_i32(chars, spans[base]) {
        Some(v) => v,
        None => {
            return Err(field_error("x_pos", row, text, spans[base]));
        },
    };
    let y_pos = match read_i32(chars, spans[base + 1]) {
        Some(v) => v,
        None => {
            return Err(field_error("y_pos", row, text, spans[base + 1]));
        },
    };
    let next_type = match read_i32(chars, spans[base + 2]) {
        Some(v) => v,
        None => {
            return Err(field_error("next_type", row, text, spans[base + 2]));
        },
    };
    let blend_mode = match read_i32(chars, spans[base + 3]) {
        Some(v) => v,
        None => {
            return Err(field_error("blend_mode", row, text, spans[base + 3]));
        },
    };
    let opacity = match read_i32(chars, spans[base + 4]) {
        Some(v) => v,
        None => {
            return Err(field_error("opacity", row, text, spans[base + 4]));
        },
    };
    let rotate = match read_i32(chars, spans[base + 5]) {
        Some(v) => v,
        None => {
            return Err(field_error("rotate", row, text, spans[base + 5]));
        },
    };
    let img_x = match read_u32(chars, spans[base + 6]) {
        Some(v) => v,
        None => {
            return Err(field_error("img_x", row, text, spans[base + 6]));
        },
    };
    let img_y = match read_u32(chars, spans[base + 7]) {
        Some(v) => v,
        None => {
            return Err(field_error("img_y", row, text, spans[base + 7]));
        },
    };
    let img_width = match read_u32(chars, spans[base + 8]) {
        Some(v) => v,
        None => {
            return Err(field_error("img_width", row, text, spans[base + 8]));
        },
    };
    let img_height = match read_u32(chars, spans[base + 9]) {
        Some(v) => v,
        None => {
            return Err(field_error("img_height", row, text, spans[base + 9]));
        },
    };
    let page_id = match read_u32(chars, spans[base + 10]) {
        Some(v) => v,
        None => {
            return Err(field_error("page_id", row, text, spans[base + 10]));
        },
    };
    Ok(
        PartData {
            anchor,
            x_pos,
            y_pos,
            next_type,
            blend_mode,
            opacity,
            rotate,
            img_x,
            img_y,
            img_width,
            img_height,
            page_id,
            index,
            flip_x: next_type == 1 || next_type == 3,
            flip_y: next_type == 2 || next_type == 3,
            line_index: row,
        },
    )
}

/// The parts of `parts` in the opposite order.
fn reversed(parts: &Vec<PartData>) -> (out: Vec<PartData>)
    ensures
        out@ == parts@.reverse(),
{
    let mut out: Vec<PartData> = Vec::new();
    let n = parts.len();
    let mut i: usize = n;
    while i > 0
        invariant
            n == parts@.len(),
            i <= n,
            out@.len() == n - i,
            forall|k: int| 0 <= k < out@.len() ==> out@[k] == parts@[n - 1 - k],
        decreases i,
    {
        i -= 1;
        out.push(parts[i]);
    }
    assert(out@ =~= parts@.reverse());
    out
}

/// Reads one line of the table, found at the zero-based position `row`.
///
/// Returns the parts of the frame template in paint order, the reverse of
/// the order in which the line lists them; `None` for a line with too few
/// fields to describe its parts; and a parse error, naming the field and
/// the one-based line, for a line that is malformed.
pub fn process(text: &str, row: usize) -> (res: Result<Option<FrameParts>, FfbeError>)
    ensures
        agrees(res, line_outcome(text@, row)),
        res matches Ok(Some(parts)) ==> forall|i: int|
            0 <= i < parts@.len() ==> (#[trigger] parts@[i]).flags_agree(),
{
    proof {
        lemma_line_flags(text@, row);
    }
    let chars = chars_of(text);
    let spans = split_fields(&chars);
    let ghost fields = leading_fields(text@);
    let missing = Span { start: 0, end: 0 };
    proof {
        assert(missing.of(text@) =~= Seq::<char>::empty());
    }
    if spans.len() == 0 {
        return Err(field_error("anchor", row, text, missing));
    }
    let anchor = match read_i32(&chars, spans[0]) {
        Some(v) => v,
        None => {
            return Err(field_error("anchor", row, text, spans[0]));
        },
    };
    if spans.len() == 1 {
        return Err(field_error("count", row, text, missing));
    }
    let count = match read_usize(&chars, spans[1]) {
        Some(v) => v,
        None => {
            return Err(field_error("count", row, text, spans[1]));
        },
    };
    let total = spans.len();
    let size = if count == 0 {
        1
    } else {
        (total - 2) / count
    };
    if size == 0 {
        return Ok(None);
    }
    let ghost rest = fields.skip(2);
    let ghost whole = chunks_outcome(anchor, rest, size as nat, 0, row);
    let ghost expected = line_outcome(text@, row);
    assert(expected == in_paint_order(whole));
    let mut parts: Vec<PartData> = Vec::new();
    let mut base: usize = 2;
    let mut index: usize = 0;
    proof {
        assert(rest.skip(0) =~= rest);
        assert(parts@ + Seq::<PartData>::empty() =~= parts@);
    }
    while base < total
        invariant
            chars@ == text@,
            total == spans@.len(),
            fields == leading_fields(text@),
            fields.len() == total,
            rest == fields.skip(2),
            forall|i: int|
                0 <= i < spans@.len() ==> (#[trigger] spans@[i]).within(chars@) && spans@[i].of(
                    chars@,
                ) == fields[i],
            2 <= base <= total,
            index <= base,
            expected == line_outcome(text@, row),
            expected == in_paint_order(whole),
            whole == prepend(
                parts@,
                chunks_outcome(anchor, rest.skip(base - 2), size as nat, index as nat, row),
            ),
        decreases total - base,
    {
        let ghost here = rest.skip(base - 2);
        let left = total - base;
        if size != PART_FIELDS || left < PART_FIELDS {
            let got = if size < left {
                size
            } else {
                left
            };
            return Err(chunk_error(row, got));
        }
        let ghost chunk = here.take(11);
        proof {
            assert(chunk =~= Seq::new(11, |k: int| spans@[base + k].of(chars@)));
        }
        match read_part(text, &chars, &spans, base, anchor, index, row) {
            Err(e) => {
                return Err(e);
            },
            Ok(part) => {
                proof {
                    assert(here.skip(11) =~= rest.skip(base + 11 - 2));
                    let next = chunks_outcome(
                        anchor,
                        here.skip(11),
                        size as nat,
                        index as nat + 1,
                        row,
                    );
                    match next {
                        LineOutcome::Parts(more) => {
                            assert(parts@ + (seq![part] + more) =~= parts@.push(part) + more);
                        },
                        _ => {},
                    }
                }
                parts.push(part);
                base += PART_FIELDS;
                index += 1;
            },
        }
    }
    proof {
        assert(parts@ + Seq::<PartData>::empty() =~= parts@);
    }
    Ok(Some(reversed(&parts)))
}

/// The `i`-th group of eleven fields of `rest`.
pub open spec fn chunk_at(rest: Seq<Seq<char>>, i: int) -> Seq<Seq<char>> {
    rest.subrange(11 * i, 11 * i + 11)
}

/// A line is well formed when it holds an anchor, a part count, and then
/// exactly eleven numbers, each of its type, for every announced part.
pub open spec fn well_formed(text: Seq<char>) -> bool {
    let fields = leading_fields(text);
    &&& fields.len() >= 2
    &&& parse_i32(fields[0]) is Some
    &&& parse_usize(fields[1]) is Some
    &&& fields.len() - 2 == 11 * parse_usize(fields[1]).unwrap()
    &&& forall|i: int|
        0 <= i < parse_usize(fields[1]).unwrap() ==> first_bad(
            #[trigger] chunk_at(fields.skip(2), i),
        ) == 11
}

proof fn lemma_chunks_parts(anchor: i32, rest: Seq<Seq<char>>, index: nat, row: usize, count: nat)
    requires
        rest.len() == 11 * count,
        forall|i: int| 0 <= i < count ==> first_bad(#[trigger] chunk_at(rest, i)) == 11,
    ensures
        chunks_outcome(anchor, rest, 11, index, row) matches LineOutcome::Parts(parts)
            && parts.len() == count && forall|i: int|
            0 <= i < count ==> #[trigger] parts[i] == part_of(
                anchor,
                chunk_at(rest, i),
                (index + i) as usize,
                row,
            ),
    decreases count,
{
    if count > 0 {
        let tail = rest.skip(11);
        assert(rest.take(11) =~= chunk_at(rest, 0));
        assert forall|i: int| 0 <= i < count - 1 implies first_bad(#[trigger] chunk_at(tail, i))
            == 11 by {
            assert(chunk_at(tail, i) =~= chunk_at(rest, i + 1));
        }
        lemma_chunks_parts(anchor, tail, index + 1, row, (count - 1) as nat);
        let more = chunks_outcome(anchor, tail, 11, index + 1, row)->Parts_0;
        let parts = seq![part_of(anchor, chunk_at(rest, 0), index as usize, row)] + more;
        assert forall|i: int| 0 <= i < count implies #[trigger] parts[i] == part_of(
            anchor,
            chunk_at(rest, i),
            (index + i) as usize,
            row,
        ) by {
            if i > 0 {
                assert(parts[i] == more[i - 1]);
                assert(chunk_at(tail, i - 1) =~= chunk_at(rest, i));
            }
        }
    }
}

/// A well-formed line yields exactly as many parts as it announces, and
/// reading the result from its end gives the parts in the order in which
/// the line lists them, each with the values of its own eleven fields.
pub proof fn lemma_well_formed_line(text: Seq<char>, row: usize)
    requires
        well_formed(text),
    ensures
        ({
            let fields = leading_fields(text);
            let anchor = parse_i32(fields[0]).unwrap();
            let count = parse_usize(fields[1]).unwrap();
            line_outcome(text, row) matches LineOutcome::Parts(parts) && parts.len() == count
                && forall|i: int|
                0 <= i < count ==> #[trigger] parts[count - 1 - i] == part_of(
                    anchor,
                    chunk_at(fields.skip(2), i),
                    i as usize,
                    row,
                )
        }),
{
    let fields = leading_fields(text);
    let anchor = parse_i32(fields[0]).unwrap();
    let count = parse_usize(fields[1]).unwrap();
    let rest = fields.skip(2);
    lemma_chunks_parts(anchor, rest, 0, row, count as nat);
    if count > 0 {
        assert((11 * (count as nat)) / (count as nat) == 11) by (nonlinear_arith)
            requires
                count > 0,
        ;
    }
    let forward = chunks_outcome(anchor, rest, 11, 0, row)->Parts_0;
    let parts = forward.reverse();
    assert forall|i: int| 0 <= i < count implies #[trigger] parts[count - 1 - i] == part_of(
        anchor,
        chunk_at(rest, i),
        i as usize,
        row,
    ) by {
        assert(parts[count - 1 - i] == forward[i]);
    }
}

proof fn lemma_chunks_flags(anchor: i32, rest: Seq<Seq<char>>, size: nat, index: nat, row: usize)
    ensures
        chunks_outcome(anchor, rest, size, index, row) matches LineOutcome::Parts(parts)
            ==> forall|i: int| 0 <= i < parts.len() ==> (#[trigger] parts[i]).flags_agree(),
    decreases rest.len(),
{
    if rest.len() != 0 && !(size != 11 || rest.len() < 11) && first_bad(rest.take(11)) == 11 {
        lemma_chunks_flags(anchor, rest.skip(11), size, index + 1, row);
    }
}

/// Every part that a line yields carries mirroring flags that agree with
/// its `next_type`.
pub proof fn lemma_line_flags(text: Seq<char>, row: usize)
    ensures
        line_outcome(text, row) matches LineOutcome::Parts(parts) ==> forall|i: int|
            0 <= i < parts.len() ==> (#[trigger] parts[i]).flags_agree(),
{
    let fields = leading_fields(text);
    if parse_i32(field_or_empty(fields, 0)) is Some && parse_usize(field_or_empty(fields, 1))
        is Some {
        let anchor = parse_i32(field_or_empty(fields, 0)).unwrap();
        let count = parse_usize(field_or_empty(fields, 1)).unwrap();
        let rest = fields.skip(2);
        let size: nat = if count == 0 {
            1
        } else {
            rest.len() / (count as nat)
        };
        lemma_chunks_flags(anchor, rest, size, 0, row);
        match chunks_outcome(anchor, rest, size, 0, row) {
            LineOutcome::Parts(forward) => {
                let parts = forward.reverse();
                assert forall|i: int| 0 <= i < parts.len() implies (
                #[trigger] parts[i]).flags_agree() by {
                    assert(parts[i] == forward[forward.len() - 1 - i]);
                }
            },
            _ => {},
        }
    }
}

/// What a whole table amounts to.
pub enum TableOutcome {
    /// The frame templates of the table, indexed from zero in line order.
    Frames(Seq<Seq<PartData>>),
    /// The report of the first malformed line.
    Invalid(Seq<char>),
}

/// What the first `n` lines of a table amount to: lines that are not frame
/// templates are passed over, and the first malformed line ends the
/// reading.
pub open spec fn table_outcome(lines: Seq<Seq<char>>, n: nat) -> TableOutcome
    decreases n,
{
    if n == 0 {
        TableOutcome::Frames(Seq::empty())
    } else {
        match table_outcome(lines, (n - 1) as nat) {
            TableOutcome::Invalid(report) => TableOutcome::Invalid(report),
            TableOutcome::Frames(frames) => match line_outcome(lines[n - 1], (n - 1) as usize) {
                LineOutcome::Skip => TableOutcome::Frames(frames),
                LineOutcome::Parts(parts) => TableOutcome::Frames(frames.push(parts)),
                LineOutcome::Invalid(report) => TableOutcome::Invalid(report),
            },
        }
    }
}

/// The texts of `lines`.
pub open spec fn texts(lines: Seq<String>) -> Seq<Seq<char>> {
    Seq::new(lines.len(), |i: int| lines[i]@)
}

/// The parts of each frame template of `frames`.
pub open spec fn frames_view(frames: Seq<FrameParts>) -> Seq<Seq<PartData>> {
    Seq::new(frames.len(), |i: int| frames[i]@)
}

/// Reads a whole table, one line per element of `lines`. Frame templates
/// are numbered from zero in the order in which their lines appear.
pub fn process_lines(lines: &Vec<String>) -> (res: Result<Vec<FrameParts>, FfbeError>)
    ensures
        match table_outcome(texts(lines@), lines@.len()) {
            TableOutcome::Frames(frames) => res matches Ok(v) && frames_view(v@) == frames,
            TableOutcome::Invalid(report) => res matches Err(e) && e.is_parse_error(report),
        },
{
    let mut frames: Vec<FrameParts> = Vec::new();
    let n = lines.len();
    let mut row: usize = 0;
    proof {
        assert(frames_view(frames@) =~= Seq::<Seq<PartData>>::empty());
    }
    while row < n
        invariant
            n == lines@.len(),
            row <= n,
            table_outcome(texts(lines@), row as nat) == TableOutcome::Frames(frames_view(frames@)),
        decreases n - row,
    {
        let ghost before = frames_view(frames@);
        match process(lines[row].as_str(), row) {
            Err(e) => {
                proof {
                    lemma_table_error(texts(lines@), row as nat + 1, n as nat);
                }
                return Err(e);
            },
            Ok(None) => {},
            Ok(Some(parts)) => {
                frames.push(parts);
                proof {
                    assert(frames_view(frames@) =~= before.push(parts@));
                }
            },
        }
        row += 1;
    }
    Ok(frames)
}

/// Once a line is malformed, reading further lines changes nothing.
proof fn lemma_table_error(lines: Seq<Seq<char>>, k: nat, n: nat)
    requires
        k <= n,
        table_outcome(lines, k) is Invalid,
    ensures
        table_outcome(lines, n) == table_outcome(lines, k),
    decreases n - k,
{
    if k < n {
        lemma_table_error(lines, k, (n - 1) as nat);
    }
}

} // verus!
