//! The line format of labelled positions: `<FEN> [<label>]`.

use vstd::prelude::*;
use crate::text::{chars_of, is_ws, string_of, trim_end, trim_end_chars};

verus! {

/// A position waiting for refinement, with its opaque label.
pub struct WorkItem {
    pub fen: String,
    pub label: String,
}

/// A refined position, carrying the label of the item it came from.
pub struct RefinedRecord {
    pub fen: String,
    pub label: String,
}

/// The characters of `s` before the first `c` (all of `s` when there is none).
pub open spec fn before_char(s: Seq<char>, c: char) -> Seq<char>
    decreases s.len(),
{
    if s.len() == 0 {
        s
    } else if s[0] == c {
        Seq::empty()
    } else {
        seq![s[0]] + before_char(s.skip(1), c)
    }
}

/// `s` with every `c` taken out.
pub open spec fn without(s: Seq<char>, c: char) -> Seq<char>
    decreases s.len(),
{
    if s.len() == 0 {
        s
    } else if s.last() == c {
        without(s.drop_last(), c)
    } else {
        without(s.drop_last(), c).push(s.last())
    }
}

/// The `(fen, label)` pair that an input line holds: the FEN is what stands
/// before the first `[`, trailing whitespace removed; the label is what
/// follows it up to the next `[`, with every `]` removed. No `[`, no record.
pub open spec fn parsed_record(line: Seq<char>) -> Option<(Seq<char>, Seq<char>)> {
    let head = before_char(line, '[');
    if head.len() == line.len() {
        None
    } else {
        Some((trim_end(head), without(before_char(line.skip(head.len() + 1 as int), '['), ']')))
    }
}

/// The line that a record is written as.
pub open spec fn record_line(fen: Seq<char>, label: Seq<char>) -> Seq<char> {
    fen + seq![' ', '['] + label + seq![']']
}

/// The characters of `s` before the first `c`.
pub fn before_char_chars(s: &Vec<char>, c: char) -> (r: Vec<char>)
    ensures
        r@ == before_char(s@, c),
        r@.len() == s@.len() <==> !s@.contains(c),
        r@.len() <= s@.len(),
        r@ == s@.take(r@.len() as int),
{
    let mut r: Vec<char> = Vec::new();
    let mut i: usize = 0;
    assert(s@.skip(0) =~= s@);
    while i < s.len() && s[i] != c
        invariant
            i <= s@.len(),
            r@ == s@.take(i as int),
            forall|j: int| 0 <= j < i ==> s@[j] != c,
            before_char(s@, c) == r@ + before_char(s@.skip(i as int), c),
        decreases s@.len() - i,
    {
        assert(s@.skip(i as int).skip(1) =~= s@.skip(i + 1));
        r.push(s[i]);
        i = i + 1;
        assert(r@ =~= s@.take(i as int));
    }
    if i < s.len() {
        assert(s@.contains(c));
    } else {
        assert(s@.skip(i as int) =~= Seq::<char>::empty());
    }
    assert(r@ + before_char(s@.skip(i as int), c) =~= r@);
    r
}

/// `s` with every `c` taken out.
pub fn without_chars(s: &Vec<char>, c: char) -> (r: Vec<char>)
    ensures
        r@ == without(s@, c),
{
    let mut r: Vec<char> = Vec::new();
    let mut i: usize = 0;
    assert(s@.take(0) =~= Seq::<char>::empty());
    while i < s.len()
        invariant
            i <= s@.len(),
            r@ == without(s@.take(i as int), c),
        decreases s@.len() - i,
    {
        assert(s@.take(i + 1).drop_last() =~= s@.take(i as int));
        if s[i] != c {
            r.push(s[i]);
        }
        i = i + 1;
    }
    assert(s@.take(i as int) =~= s@);
    r
}

/// Reads one input line into a work item.
pub fn parse_record(line: &str) -> (r: Option<WorkItem>)
    ensures
        r is None <==> !line@.contains('['),
        match r {
            Some(item) => parsed_record(line@) == Some((item.fen@, item.label@)),
            None => parsed_record(line@) is None,
        },
{
    let s = chars_of(line);
    let head = before_char_chars(&s, '[');
    if head.len() == s.len() {
        return None;
    }
    let mut rest: Vec<char> = Vec::new();
    let mut i: usize = head.len() + 1;
    while i < s.len()
        invariant
            head@.len() + 1 <= i <= s@.len(),
            rest@ == s@.subrange(head@.len() + 1 as int, i as int),
        decreases s@.len() - i,
    {
        rest.push(s[i]);
        i = i + 1;
        assert(rest@ =~= s@.subrange(head@.len() + 1 as int, i as int));
    }
    assert(rest@ =~= s@.skip(head@.len() + 1 as int));
    let fen = trim_end_chars(&head);
    let segment = before_char_chars(&rest, '[');
    let label = without_chars(&segment, ']');
    Some(WorkItem { fen: string_of(&fen), label: string_of(&label) })
}

/// Writes a refined record as one output line, without the line break.
pub fn format_record(rec: &RefinedRecord) -> (r: String)
    ensures
        r@ == record_line(rec.fen@, rec.label@),
{
    proof {
        reveal_strlit(" [");
        reveal_strlit("]");
    }
    let mut out = rec.fen.clone();
    out.append(" [");
    out.append(rec.label.as_str());
    out.append("]");
    assert(out@ =~= record_line(rec.fen@, rec.label@));
    out
}

proof fn lemma_before_char_append(a: Seq<char>, b: Seq<char>, c: char)
    requires
        !a.contains(c),
    ensures
        before_char(a + b, c) == a + before_char(b, c),
    decreases a.len(),
{
    if a.len() > 0 {
        assert((a + b).skip(1) =~= a.skip(1) + b);
        assert(!a.skip(1).contains(c)) by {
            if a.skip(1).contains(c) {
                let j = choose|j: int| 0 <= j < a.skip(1).len() && a.skip(1)[j] == c;
                assert(a[j + 1] == c);
            }
        }
        lemma_before_char_append(a.skip(1), b, c);
        assert(seq![a[0]] + (a.skip(1) + before_char(b, c)) =~= a + before_char(b, c));
    } else {
        assert(a + b =~= b);
        assert(a + before_char(b, c) =~= before_char(b, c));
    }
}

proof fn lemma_without_absent(s: Seq<char>, c: char)
    requires
        !s.contains(c),
    ensures
        without(s, c) == s,
    decreases s.len(),
{
    if s.len() > 0 {
        assert(!s.drop_last().contains(c)) by {
            if s.drop_last().contains(c) {
                let j = choose|j: int| 0 <= j < s.drop_last().len() && s.drop_last()[j] == c;
                assert(s[j] == c);
            }
        }
        assert(s[s.len() - 1] == s.last());
        lemma_without_absent(s.drop_last(), c);
        assert(s.drop_last().push(s.last()) =~= s);
    }
}

/// A record written as a line and read back gives the same FEN and label,
/// for a FEN that holds no `[` and does not end in whitespace, and a label
/// that holds no bracket.
pub proof fn lemma_record_round_trip(fen: Seq<char>, label: Seq<char>)
    requires
        !fen.contains('['),
        fen.len() == 0 || !is_ws(fen.last()),
        !label.contains('['),
        !label.contains(']'),
    ensures
        parsed_record(record_line(fen, label)) == Some((fen, label)),
{
    let line = record_line(fen, label);
    let tail = seq![' ', '['] + label + seq![']'];
    assert(line =~= fen + tail);
    lemma_before_char_append(fen, tail, '[');
    assert(tail.skip(1)[0] == '[');
    assert(before_char(tail.skip(1), '[') =~= Seq::<char>::empty());
    assert(before_char(tail, '[') =~= seq![' ']);
    let head = before_char(line, '[');
    assert(head =~= fen.push(' '));
    assert(head.drop_last() =~= fen);
    assert(trim_end(head) == trim_end(fen));
    let rest = label.push(']');
    assert(line.skip(head.len() + 1 as int) =~= rest);
    assert(!rest.contains('[')) by {
        if rest.contains('[') {
            let j = choose|j: int| 0 <= j < rest.len() && rest[j] == '[';
            if j < label.len() {
                assert(label[j] == '[');
            }
        }
    }
    lemma_before_char_append(rest, Seq::empty(), '[');
    assert(rest + Seq::<char>::empty() =~= rest);
    assert(before_char(Seq::<char>::empty(), '[') =~= Seq::<char>::empty());
    assert(before_char(rest, '[') =~= rest);
    assert(rest.drop_last() =~= label);
    lemma_without_absent(label, ']');
}

} // verus!
