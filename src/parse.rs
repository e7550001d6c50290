//! Parsing a wire line into a [`Message`].
//!
//! The line is scanned left to right in stages, each applying only when its
//! marker is present: the tag section (`@...`), the prefix (`:...`), the
//! trailing parameter (after the first `" :"`), the command, and the
//! positional arguments.
use vstd::prelude::*;

use crate::message::{Message, MessageView, Tag, TagView, opt_view, strings_view, tags_view};
use crate::text::{
    chars_of, find_char, find_marker, lemma_find_marker_bounds, pieces, scan_for, scan_for_marker, scan_past_spaces,
    skip_spaces, slice_owned, split_pieces, strip_crlf,
};

verus! {

/// The most pieces the argument text is split into; the last keeps the rest.
pub const MAX_ARGS: usize = 14;

/// Why a line could not be parsed.
#[derive(Clone, Copy, Debug, PartialEq, Eq, Structural)]
pub enum ParseError {
    /// The line is empty.
    EmptyInput,
    /// No command token is left once the optional sections are taken off.
    MissingCommand,
}

impl ParseError {
    /// A human-readable description of the error.
    pub fn message(&self) -> (r: &'static str)
        ensures
            r@ == (match self {
                ParseError::EmptyInput => "Cannot parse an empty string as a message."@,
                ParseError::MissingCommand => "Cannot parse a message without a command."@,
            }),
    {
        match self {
            ParseError::EmptyInput => "Cannot parse an empty string as a message.",
            ParseError::MissingCommand => "Cannot parse a message without a command.",
        }
    }
}

/// A tag fragment split once at its first `=`; no `=` means no value.
pub open spec fn tag_of(f: Seq<char>) -> TagView {
    match find_char(f, '=') {
        Some(i) => (f.subrange(0, i), Some(f.subrange(i + 1, f.len() as int))),
        None => (f, None),
    }
}

/// The tags of a tag section (without its `@`): non-empty `;`-separated fragments.
pub open spec fn tags_of(t: Seq<char>) -> Seq<TagView> {
    pieces(t, ';', 0).map_values(|f: Seq<char>| tag_of(f))
}

/// The tag stage: the tags, and the text after the tag section and its space.
pub open spec fn split_tags(s: Seq<char>) -> (Option<Seq<TagView>>, Seq<char>) {
    if s.len() > 0 && s[0] == '@' {
        match find_char(s, ' ') {
            Some(i) => (Some(tags_of(s.subrange(1, i))), s.subrange(i + 1, s.len() as int)),
            None => (None, seq![]),
        }
    } else {
        (None, s)
    }
}

/// The prefix stage: the prefix, and the text after it and its space.
pub open spec fn split_prefix(s: Seq<char>) -> (Option<Seq<char>>, Seq<char>) {
    if s.len() > 0 && s[0] == ':' {
        match find_char(s, ' ') {
            Some(i) => (Some(s.subrange(1, i)), s.subrange(i + 1, s.len() as int)),
            None => (None, seq![]),
        }
    } else {
        (None, s)
    }
}

/// The trailing-parameter stage: the text after the first `" :"`, and the
/// text before the colon (which keeps the space).
pub open spec fn split_suffix(s: Seq<char>) -> (Option<Seq<char>>, Seq<char>) {
    match find_marker(s) {
        Some(i) => (Some(s.subrange(i + 2, s.len() as int)), s.subrange(0, i + 1)),
        None => (None, s),
    }
}

/// The command stage: the first space-delimited token, and the text after it
/// and its space; none when no token is left, or when the token starts with
/// `:` (a leading colon marks a prefix or a trailing parameter, never a
/// command).
pub open spec fn split_command(s: Seq<char>) -> Option<(Seq<char>, Seq<char>)> {
    let t = skip_spaces(s);
    if t.len() == 0 || t[0] == ':' {
        None
    } else {
        match find_char(t, ' ') {
            Some(k) => Some((t.subrange(0, k), t.subrange(k + 1, t.len() as int))),
            None => Some((t, seq![])),
        }
    }
}

/// The message a wire line denotes, or why it denotes none. The terminator
/// `"\r\n"` is taken off the end first, when the line has one.
pub open spec fn parse_spec(line: Seq<char>) -> Result<MessageView, ParseError> {
    if line.len() == 0 {
        Err(ParseError::EmptyInput)
    } else {
        let (tags, r1) = split_tags(strip_crlf(line));
        let (prefix, r2) = split_prefix(r1);
        let (suffix, r3) = split_suffix(r2);
        match split_command(r3) {
            None => Err(ParseError::MissingCommand),
            Some((command, rest)) => Ok(
                MessageView {
                    tags,
                    prefix,
                    command,
                    args: pieces(rest, ' ', MAX_ARGS as nat),
                    suffix,
                },
            ),
        }
    }
}

/// The tag of one fragment.
fn tag_from(frag: String) -> (r: Tag)
    ensures
        r@ == tag_of(frag@),
{
    let s = frag.as_str();
    let cs = chars_of(s);
    let n = cs.len();
    assert(cs@.subrange(0, n as int) =~= s@);
    let i = scan_for(&cs, 0, n, '=');
    if i < n {
        Tag(slice_owned(s, 0, i), Some(slice_owned(s, i + 1, n)))
    } else {
        Tag(frag, None)
    }
}

/// The tags of the characters `lo..hi` of `line`.
fn tags_in(line: &str, cs: &Vec<char>, lo: usize, hi: usize) -> (r: Vec<Tag>)
    requires
        cs@ == line@,
        lo <= hi <= cs@.len(),
    ensures
        r@.map_values(|t: Tag| t@) == tags_of(cs@.subrange(lo as int, hi as int)),
{
    let frags = split_pieces(line, cs, lo, hi, ';', 0);
    let ghost fv = strings_view(frags@);
    let mut r: Vec<Tag> = Vec::new();
    let mut i: usize = 0;
    while i < frags.len()
        invariant
            i <= frags@.len(),
            r@.len() == i,
            fv == strings_view(frags@),
            r@.map_values(|t: Tag| t@) == fv.take(i as int).map_values(|f: Seq<char>| tag_of(f)),
        decreases frags@.len() - i,
    {
        let t = tag_from(frags[i].clone());
        let ghost before = r@.map_values(|t: Tag| t@);
        r.push(t);
        assert(r@.map_values(|t: Tag| t@) =~= before.push(t@));
        assert(fv.take(i + 1).map_values(|f: Seq<char>| tag_of(f)) =~= fv.take(i as int).map_values(
            |f: Seq<char>| tag_of(f),
        ).push(tag_of(fv[i as int])));
        i = i + 1;
    }
    assert(fv.take(i as int) =~= fv);
    r
}

/// The tag stage on the characters `0..end` of `line`: the tags, and where
/// the rest of the text starts.
fn tag_stage(line: &str, cs: &Vec<char>, end: usize) -> (r: (Option<Vec<Tag>>, usize))
    requires
        cs@ == line@,
        end <= cs@.len(),
    ensures
        r.1 <= end,
        tags_view(r.0) == split_tags(cs@.subrange(0, end as int)).0,
        cs@.subrange(r.1 as int, end as int) == split_tags(cs@.subrange(0, end as int)).1,
{
    let ghost s = cs@.subrange(0, end as int);
    if end > 0 && cs[0] == '@' {
        let k = scan_for(&cs, 0, end, ' ');
        if k == end {
            assert(cs@.subrange(end as int, end as int) =~= Seq::<char>::empty());
            return (None, end);
        }
        assert(s.subrange(1, k as int) =~= cs@.subrange(1, k as int));
        assert(s.subrange(k + 1, s.len() as int) =~= cs@.subrange(k + 1, end as int));
        (Some(tags_in(line, cs, 1, k)), k + 1)
    } else {
        (None, 0)
    }
}

/// The prefix stage on the characters `pos..end` of `line`.
fn prefix_stage(line: &str, cs: &Vec<char>, pos: usize, end: usize) -> (r: (Option<String>, usize))
    requires
        cs@ == line@,
        pos <= end <= cs@.len(),
    ensures
        pos <= r.1 <= end,
        opt_view(r.0) == split_prefix(cs@.subrange(pos as int, end as int)).0,
        cs@.subrange(r.1 as int, end as int) == split_prefix(cs@.subrange(pos as int, end as int)).1,
{
    let ghost s = cs@.subrange(pos as int, end as int);
    if pos < end && cs[pos] == ':' {
        let k = scan_for(&cs, pos, end, ' ');
        if k == end {
            assert(cs@.subrange(end as int, end as int) =~= Seq::<char>::empty());
            return (None, end);
        }
        assert(s.subrange(1, k - pos) =~= cs@.subrange(pos + 1, k as int));
        assert(s.subrange(k - pos + 1, s.len() as int) =~= cs@.subrange(k + 1, end as int));
        (Some(slice_owned(line, pos + 1, k)), k + 1)
    } else {
        (None, pos)
    }
}

/// The trailing-parameter stage on the characters `pos..end` of `line`: the
/// suffix, and where the text before it ends.
fn suffix_stage(line: &str, cs: &Vec<char>, pos: usize, end: usize) -> (r: (Option<String>, usize))
    requires
        cs@ == line@,
        pos <= end <= cs@.len(),
    ensures
        pos <= r.1 <= end,
        opt_view(r.0) == split_suffix(cs@.subrange(pos as int, end as int)).0,
        cs@.subrange(pos as int, r.1 as int) == split_suffix(cs@.subrange(pos as int, end as int)).1,
{
    let ghost s = cs@.subrange(pos as int, end as int);
    let m = scan_for_marker(&cs, pos, end);
    if m < end {
        proof {
            lemma_find_marker_bounds(s);
        }
        assert(s.subrange(m - pos + 2, s.len() as int) =~= cs@.subrange(m + 2, end as int));
        assert(s.subrange(0, m - pos + 1) =~= cs@.subrange(pos as int, m + 1));
        (Some(slice_owned(line, m + 2, end)), m + 1)
    } else {
        (None, end)
    }
}

/// The command stage on the characters `pos..hi` of `line`: the command, and
/// where the argument text starts.
fn command_stage(line: &str, cs: &Vec<char>, pos: usize, hi: usize) -> (r: Option<(String, usize)>)
    requires
        cs@ == line@,
        pos <= hi <= cs@.len(),
    ensures
        match r {
            None => split_command(cs@.subrange(pos as int, hi as int)) is None,
            Some((c, rest)) => rest <= hi && split_command(cs@.subrange(pos as int, hi as int))
                == Some((c@, cs@.subrange(rest as int, hi as int))),
        },
{
    let j = scan_past_spaces(&cs, pos, hi);
    if j == hi || cs[j] == ':' {
        return None;
    }
    let ghost t = cs@.subrange(j as int, hi as int);
    let k = scan_for(&cs, j, hi, ' ');
    assert(t.subrange(0, k - j) =~= cs@.subrange(j as int, k as int));
    let command = slice_owned(line, j, k);
    if k < hi {
        assert(t.subrange(k - j + 1, t.len() as int) =~= cs@.subrange(k + 1, hi as int));
        Some((command, k + 1))
    } else {
        assert(cs@.subrange(hi as int, hi as int) =~= Seq::<char>::empty());
        assert(t =~= cs@.subrange(j as int, k as int));
        Some((command, hi))
    }
}

impl Message {
    /// Parses one wire line. Fails with `EmptyInput` on an empty line and
    /// with `MissingCommand` when no command token is left.
    pub fn parse(line: &str) -> (r: Result<Message, ParseError>)
        ensures
            match r {
                Ok(m) => parse_spec(line@) == Ok::<MessageView, ParseError>(m@),
                Err(e) => parse_spec(line@) == Err::<MessageView, ParseError>(e),
            },
    {
        let cs = chars_of(line);
        let n = cs.len();
        if n == 0 {
            return Err(ParseError::EmptyInput);
        }
        let end = if n >= 2 && cs[n - 2] == '\r' && cs[n - 1] == '\n' {
            n - 2
        } else {
            n
        };
        assert(strip_crlf(line@) =~= cs@.subrange(0, end as int));
        let (tags, pos) = tag_stage(line, &cs, end);
        let (prefix, pos) = prefix_stage(line, &cs, pos, end);
        let (suffix, hi) = suffix_stage(line, &cs, pos, end);
        match command_stage(line, &cs, pos, hi) {
            None => Err(ParseError::MissingCommand),
            Some((command, rest)) => {
                let args = split_pieces(line, &cs, rest, hi, ' ', MAX_ARGS);
                Ok(Message { tags, prefix, command, args, suffix })
            },
        }
    }
}

impl core::str::FromStr for Message {
    type Err = ParseError;

    fn from_str(s: &str) -> Result<Message, ParseError> {
        Message::parse(s)
    }
}

} // verus!
