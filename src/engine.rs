//! One analysis-engine session: the commands sent to the engine and the
//! reading of its replies. The process and its pipes are driven by the
//! caller; everything decided about the text lives here.

use vstd::prelude::*;
use std::collections::HashMap;
use crate::text::{chars_of, contains, contains_chars, strings_view};

verus! {

/// An engine executable and the options it is configured with.
pub struct Engine {
    pub path: String,
    pub uci_options: HashMap<String, String>,
}

impl Engine {
    /// An engine at `path`, to be configured with `uci_options`.
    pub fn from_path(path: &str, uci_options: HashMap<String, String>) -> (r: Engine)
        ensures
            r.path@ == path@,
            r.uci_options == uci_options,
    {
        Engine { path: path.to_owned(), uci_options }
    }
}

/// The handshake command.
pub fn handshake_command() -> (r: String)
    ensures
        r@ == "uci"@,
{
    "uci".to_owned()
}

/// The command that sets one engine option.
pub fn option_command(name: &str, value: &str) -> (r: String)
    ensures
        r@ == "setoption name "@ + name@ + " value "@ + value@,
{
    let mut r = "setoption name ".to_owned();
    r.append(name);
    r.append(" value ");
    r.append(value);
    r
}

/// The command that sets the position to analyse.
pub fn position_command(fen: &str) -> (r: String)
    ensures
        r@ == "position fen "@ + fen@,
{
    let mut r = "position fen ".to_owned();
    r.append(fen);
    r
}

/// The command that starts a search with the given limits.
pub fn go_command(go_string: &str) -> (r: String)
    ensures
        r@ == "go "@ + go_string@,
{
    let mut r = "go ".to_owned();
    r.append(go_string);
    r
}

/// The decimal digits of `n`.
pub open spec fn decimal(n: nat) -> Seq<char>
    decreases n,
{
    if n < 10 {
        seq![((n + 48) as u8) as char]
    } else {
        decimal(n / 10).push((((n % 10) + 48) as u8) as char)
    }
}

fn push_decimal(n: u32, out: &mut Vec<char>)
    ensures
        final(out)@ == old(out)@ + decimal(n as nat),
    decreases n,
{
    if n >= 10 {
        push_decimal(n / 10, out);
    }
    let d: u8 = (n % 10) as u8;
    out.push((d + 48) as char);
    assert(out@ =~= old(out)@ + decimal(n as nat));
}

/// The search limit of a fixed-depth search.
pub fn depth_limit(depth: u32) -> (r: String)
    ensures
        r@ == "depth "@ + decimal(depth as nat),
{
    let mut digits: Vec<char> = Vec::new();
    push_decimal(depth, &mut digits);
    let mut r = "depth ".to_owned();
    let tail = crate::text::string_of(&digits);
    r.append(tail.as_str());
    r
}

/// The engine's line acknowledges the handshake.
pub fn is_handshake_ack(line: &str) -> (r: bool)
    ensures
        r == contains(line@, "uciok"@),
{
    proof {
        reveal_strlit("uciok");
    }
    contains_chars(&chars_of(line), &chars_of("uciok"))
}

/// The engine's line ends a search.
pub fn is_search_end(line: &str) -> (r: bool)
    ensures
        r == contains(line@, "bestmove"@),
{
    proof {
        reveal_strlit("bestmove");
    }
    contains_chars(&chars_of(line), &chars_of("bestmove"))
}

/// One query in progress: the last line that the engine sent before the
/// line that ends the search.
pub struct Query {
    pub last: String,
}

impl Query {
    /// A query that has received nothing yet.
    pub fn new() -> (r: Query)
        ensures
            r.last@ == Seq::<char>::empty(),
    {
        Query { last: String::new() }
    }

    /// Takes the engine's next line. When it ends the search, gives back the
    /// line received just before it (empty when there was none); otherwise
    /// remembers it and gives back nothing.
    pub fn feed(&mut self, line: String) -> (r: Option<String>)
        ensures
            contains(line@, "bestmove"@) ==> r is Some && r.unwrap()@ == old(self).last@,
            !contains(line@, "bestmove"@) ==> r is None && final(self).last@ == line@,
    {
        if is_search_end(line.as_str()) {
            Some(self.last.clone())
        } else {
            self.last = line;
            None
        }
    }
}

/// The answer to a query whose replies are `lines`, with `last` the line
/// received before them: the line just before the first one that ends the
/// search (`last` when that is the first); `None` while none has ended it.
pub open spec fn query_answer(lines: Seq<Seq<char>>, last: Seq<char>) -> Option<Seq<char>>
    decreases lines.len(),
{
    if lines.len() == 0 {
        None
    } else if contains(lines[0], "bestmove"@) {
        Some(last)
    } else {
        query_answer(lines.skip(1), lines[0])
    }
}

/// Feeds the engine's replies to a fresh query, in order, until one ends
/// the search, and gives back the query's answer.
pub fn answer_of(lines: &Vec<String>) -> (r: Option<String>)
    ensures
        match r {
            Some(a) => query_answer(strings_view(lines@), Seq::empty()) == Some(a@),
            None => query_answer(strings_view(lines@), Seq::empty()) is None,
        },
{
    let mut query = Query::new();
    let mut i: usize = 0;
    assert(strings_view(lines@).skip(0) =~= strings_view(lines@));
    while i < lines.len()
        invariant
            i <= lines@.len(),
            query_answer(strings_view(lines@), Seq::empty()) == query_answer(
                strings_view(lines@).skip(i as int),
                query.last@,
            ),
        decreases lines@.len() - i,
    {
        let ghost rest = strings_view(lines@).skip(i as int);
        assert(rest[0] == lines@[i as int]@);
        assert(rest.skip(1) =~= strings_view(lines@).skip(i + 1));
        match query.feed(lines[i].clone()) {
            Some(a) => {
                return Some(a);
            },
            None => {},
        }
        i = i + 1;
    }
    None
}

} // verus!
