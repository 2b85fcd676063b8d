//! The text form of the edits: one request per line, its words separated by
//! single spaces.
//!
//! ```text
//! new <frequency> <id>
//! del <id>
//! bind <source> <sink>
//! ```

use vstd::prelude::*;
use vstd::string::*;

verus! {

/// What a line asks for. The frequency stays as written: turning it into a
/// generator is the caller's business.
#[derive(Debug, PartialEq, Eq)]
pub enum Request {
    /// A new node `id` that oscillates at `frequency`.
    New { frequency: String, id: String },
    /// The node `id` is to go.
    Delete { id: String },
    /// `sink` is to listen to `source`.
    Bind { source: String, sink: String },
}

/// A request as a mathematical value.
pub enum RequestView {
    New { frequency: Seq<char>, id: Seq<char> },
    Delete { id: Seq<char> },
    Bind { source: Seq<char>, sink: Seq<char> },
}

/// Why a line is no request.
#[derive(Clone, Copy, Debug, PartialEq, Eq, Structural)]
pub enum InputError {
    /// The line names an edit and stops before all of its arguments.
    MissingArgument,
}

impl Request {
    pub open spec fn view(&self) -> RequestView {
        match *self {
            Request::New { frequency, id } => RequestView::New { frequency: frequency@, id: id@ },
            Request::Delete { id } => RequestView::Delete { id: id@ },
            Request::Bind { source, sink } => RequestView::Bind { source: source@, sink: sink@ },
        }
    }
}

/// Whether `c` has the Unicode property White_Space.
pub open spec fn is_whitespace(c: char) -> bool {
    let code = c as u32;
    ||| 0x09 <= code <= 0x0D
    ||| code == 0x20
    ||| code == 0x85
    ||| code == 0xA0
    ||| code == 0x1680
    ||| 0x2000 <= code <= 0x200A
    ||| code == 0x2028
    ||| code == 0x2029
    ||| code == 0x202F
    ||| code == 0x205F
    ||| code == 0x3000
}

/// The length of `line` without the whitespace at its end.
pub open spec fn trimmed_len(line: Seq<char>) -> int
    decreases line.len(),
{
    if line.len() > 0 && is_whitespace(line.last()) {
        trimmed_len(line.drop_last())
    } else {
        line.len() as int
    }
}

/// `line` without the whitespace at its end.
pub open spec fn trim_end(line: Seq<char>) -> Seq<char> {
    line.take(trimmed_len(line))
}

/// The place of the first space in `text`, or its length where it has none.
pub open spec fn first_gap(text: Seq<char>) -> int
    decreases text.len(),
{
    if text.len() == 0 || text[0] == ' ' {
        0
    } else {
        1 + first_gap(text.drop_first())
    }
}

/// The `k`-th of the fields that single spaces divide `text` into, counted
/// from zero. Two spaces in a row enclose an empty field.
pub open spec fn field(text: Seq<char>, k: nat) -> Option<Seq<char>>
    decreases k,
{
    let gap = first_gap(text);
    if k == 0 {
        Some(text.take(gap))
    } else if gap == text.len() {
        None
    } else {
        field(text.skip(gap + 1), (k - 1) as nat)
    }
}

/// What a line asks for: the first field names the edit, the next ones are
/// its arguments, and further fields are ignored. A line that names no edit
/// asks for nothing.
pub open spec fn parse(line: Seq<char>) -> Result<Option<RequestView>, InputError> {
    let text = trim_end(line);
    let verb = text.take(first_gap(text));
    if verb == "new"@ {
        match (field(text, 1), field(text, 2)) {
            (Some(frequency), Some(id)) => Ok(Some(RequestView::New { frequency, id })),
            _ => Err(InputError::MissingArgument),
        }
    } else if verb == "del"@ {
        match field(text, 1) {
            Some(id) => Ok(Some(RequestView::Delete { id })),
            None => Err(InputError::MissingArgument),
        }
    } else if verb == "bind"@ {
        match (field(text, 1), field(text, 2)) {
            (Some(source), Some(sink)) => Ok(Some(RequestView::Bind { source, sink })),
            _ => Err(InputError::MissingArgument),
        }
    } else {
        Ok(None)
    }
}

/// The view of what `parse_request` returns.
pub open spec fn outcome_view(outcome: Result<Option<Request>, InputError>) -> Result<
    Option<RequestView>,
    InputError,
> {
    match outcome {
        Ok(Some(request)) => Ok(Some(request@)),
        Ok(None) => Ok(None),
        Err(error) => Err(error),
    }
}

/// The characters of `text`, in order.
fn characters(text: &str) -> (chars: Vec<char>)
    ensures
        chars@ == text@,
{
    let mut chars: Vec<char> = Vec::new();
    for c in rest: text.chars()
        invariant
            rest.seq() == text@,
            chars@ == rest.seq().take(rest.index() as int),
    {
        chars.push(c);
    }
    chars
}

/// Whether `c` is whitespace.
fn whitespace(c: char) -> (white: bool)
    ensures
        white == is_whitespace(c),
{
    let code = c as u32;
    (0x09 <= code && code <= 0x0D) || code == 0x20 || code == 0x85 || code == 0xA0 || code
        == 0x1680 || (0x2000 <= code && code <= 0x200A) || code == 0x2028 || code == 0x2029
        || code == 0x202F || code == 0x205F || code == 0x3000
}

/// Dropping whitespace from the end of a prefix that ends in whitespace only
/// is trimming the whole.
proof fn lemma_trimmed_len_step(line: Seq<char>, end: int)
    requires
        0 <= end <= line.len(),
        forall|i: int| end <= i < line.len() ==> is_whitespace(#[trigger] line[i]),
    ensures
        trimmed_len(line) == trimmed_len(line.take(end)),
    decreases line.len() - end,
{
    if end < line.len() {
        assert(is_whitespace(line[line.len() - 1]));
        lemma_trimmed_len_step(line.drop_last(), end);
        assert(line.drop_last().take(end) =~= line.take(end));
    } else {
        assert(line.take(end) =~= line);
    }
}

/// The length of the line in `chars` without the whitespace at its end.
fn trimmed_end(chars: &Vec<char>) -> (end: usize)
    ensures
        end == trimmed_len(chars@),
        end <= chars.len(),
{
    let mut end = chars.len();
    while end > 0 && whitespace(chars[end - 1])
        invariant
            end <= chars.len(),
            forall|i: int| end <= i < chars.len() ==> is_whitespace(#[trigger] chars@[i]),
        decreases end,
    {
        end -= 1;
    }
    proof {
        lemma_trimmed_len_step(chars@, end as int);
        let kept = chars@.take(end as int);
        if end > 0 {
            assert(kept.last() == chars@[end - 1]);
        }
    }
    end
}

/// A stretch without a space, followed by a space or by the end, ends at the
/// first gap.
proof fn lemma_first_gap(text: Seq<char>, gap: int)
    requires
        0 <= gap <= text.len(),
        forall|i: int| 0 <= i < gap ==> #[trigger] text[i] != ' ',
        gap < text.len() ==> text[gap] == ' ',
    ensures
        first_gap(text) == gap,
    decreases gap,
{
    if gap > 0 {
        assert(text[0] != ' ');
        let rest = text.drop_first();
        assert forall|i: int| 0 <= i < gap - 1 implies #[trigger] rest[i] != ' ' by {
            assert(rest[i] == text[i + 1]);
        }
        lemma_first_gap(rest, gap - 1);
    }
}

/// The end of the field that starts at `from` in the first `end` characters.
fn field_end(chars: &Vec<char>, from: usize, end: usize) -> (stop: usize)
    requires
        from <= end <= chars.len(),
    ensures
        from <= stop <= end,
        stop - from == first_gap(chars@.subrange(from as int, end as int)),
{
    let mut stop = from;
    while stop < end && chars[stop] != ' '
        invariant
            from <= stop <= end <= chars.len(),
            forall|i: int| from <= i < stop ==> #[trigger] chars@[i] != ' ',
        decreases end - stop,
    {
        stop += 1;
    }
    proof {
        let text = chars@.subrange(from as int, end as int);
        assert forall|i: int| 0 <= i < stop - from implies #[trigger] text[i] != ' ' by {
            assert(text[i] == chars@[from + i]);
        }
        lemma_first_gap(text, stop - from);
    }
    stop
}

/// An owned copy of the characters of `text` from `from` up to `to`.
fn copy_of(text: &str, from: usize, to: usize) -> (copy: String)
    requires
        from <= to <= text@.len(),
    ensures
        copy@ == text@.subrange(from as int, to as int),
{
    text.substring_char(from, to).to_owned()
}

/// Whether the characters from `from` up to `to` spell `word`.
fn spells(chars: &Vec<char>, from: usize, to: usize, word: &str) -> (same: bool)
    requires
        from <= to <= chars.len(),
    ensures
        same == (chars@.subrange(from as int, to as int) == word@),
{
    let letters = characters(word);
    if letters.len() != to - from {
        return false;
    }
    let mut i: usize = 0;
    while i < letters.len()
        invariant
            from <= to <= chars.len(),
            letters@ == word@,
            letters.len() == to - from,
            i <= letters.len(),
            forall|k: int| 0 <= k < i ==> chars@[from + k] == #[trigger] letters@[k],
        decreases letters.len() - i,
    {
        if chars[from + i] != letters[i] {
            assert(chars@.subrange(from as int, to as int)[i as int] != word@[i as int]);
            return false;
        }
        i += 1;
    }
    assert(chars@.subrange(from as int, to as int) =~= word@);
    true
}

/// Reads one line.
///
/// Whitespace at the end of the line does not count. `Ok(None)` says that the
/// line names no edit; `Err` says that it names one and an argument is
/// missing.
pub fn parse_request(input: &str) -> (outcome: Result<Option<Request>, InputError>)
    ensures
        outcome_view(outcome) == parse(input@),
{
    let chars = characters(input);
    let end = trimmed_end(&chars);
    let ghost text = trim_end(input@);
    let verb_end = field_end(&chars, 0, end);
    proof {
        assert(chars@.subrange(0, end as int) =~= text);
        assert(chars@.subrange(0, verb_end as int) =~= text.take(verb_end as int));
        reveal_with_fuel(field, 3);
        reveal_strlit("new");
        reveal_strlit("del");
    }
    let is_new = spells(&chars, 0, verb_end, "new");
    let is_delete = spells(&chars, 0, verb_end, "del");
    let is_bind = spells(&chars, 0, verb_end, "bind");
    if !is_new && !is_delete && !is_bind {
        return Ok(None);
    }
    if verb_end == end {
        return Err(InputError::MissingArgument);
    }
    let second = verb_end + 1;
    let second_end = field_end(&chars, second, end);
    proof {
        let rest = text.skip(second as int);
        assert(chars@.subrange(second as int, end as int) =~= rest);
        assert(rest.take(second_end - second) =~= input@.subrange(
            second as int,
            second_end as int,
        ));
    }
    if is_delete {
        return Ok(Some(Request::Delete { id: copy_of(input, second, second_end) }));
    }
    if second_end == end {
        return Err(InputError::MissingArgument);
    }
    let third = second_end + 1;
    let third_end = field_end(&chars, third, end);
    proof {
        let rest = text.skip(second as int).skip(third - second);
        assert(chars@.subrange(third as int, end as int) =~= rest);
        assert(rest.take(third_end - third) =~= input@.subrange(third as int, third_end as int));
    }
    let first_argument = copy_of(input, second, second_end);
    let second_argument = copy_of(input, third, third_end);
    if is_new {
        Ok(Some(Request::New { frequency: first_argument, id: second_argument }))
    } else {
        Ok(Some(Request::Bind { source: first_argument, sink: second_argument }))
    }
}

} // verus!
