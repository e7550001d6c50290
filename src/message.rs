//! The message model: one protocol line as structured data, with its
//! constructors, its serialization to wire text, and the nickname of its source.
use vstd::prelude::*;

use crate::text::{chars_of, find_char, scan_for};

verus! {

/// The view of a tag: its key and its optional value.
pub type TagView = (Seq<char>, Option<Seq<char>>);

/// The view of a message: every string as its sequence of characters.
pub struct MessageView {
    pub tags: Option<Seq<TagView>>,
    pub prefix: Option<Seq<char>>,
    pub command: Seq<char>,
    pub args: Seq<Seq<char>>,
    pub suffix: Option<Seq<char>>,
}

/// An IRCv3.2 message tag: a key and an optional value (absent for a flag).
#[derive(Clone, PartialEq, Debug)]
pub struct Tag(pub String, pub Option<String>);

/// One IRC protocol line.
#[derive(Clone, PartialEq, Debug)]
pub struct Message {
    /// Message tags, absent when the line had no tag section.
    pub tags: Option<Vec<Tag>>,
    /// The message source: a server name or `nick[!user][@host]`.
    pub prefix: Option<String>,
    /// The command, case preserved.
    pub command: String,
    /// The positional arguments, in order.
    pub args: Vec<String>,
    /// The trailing parameter, the only one that may contain spaces.
    pub suffix: Option<String>,
}

/// The view of an optional owned string.
pub open spec fn opt_view(o: Option<String>) -> Option<Seq<char>> {
    match o {
        Some(s) => Some(s@),
        None => None,
    }
}

/// The view of an optional borrowed string.
pub open spec fn opt_str_view(o: Option<&str>) -> Option<Seq<char>> {
    match o {
        Some(s) => Some(s@),
        None => None,
    }
}

/// The views of a sequence of owned strings.
pub open spec fn strings_view(v: Seq<String>) -> Seq<Seq<char>> {
    v.map_values(|s: String| s@)
}

/// The view of an optional tag list.
pub open spec fn tags_view(t: Option<Vec<Tag>>) -> Option<Seq<TagView>> {
    match t {
        Some(v) => Some(v@.map_values(|t: Tag| t@)),
        None => None,
    }
}

impl View for Tag {
    type V = TagView;

    open spec fn view(&self) -> TagView {
        (self.0@, opt_view(self.1))
    }
}

impl View for Message {
    type V = MessageView;

    open spec fn view(&self) -> MessageView {
        MessageView {
            tags: tags_view(self.tags),
            prefix: opt_view(self.prefix),
            command: self.command@,
            args: strings_view(self.args@),
            suffix: opt_view(self.suffix),
        }
    }
}

/// Each argument preceded by a space, in order.
pub open spec fn spaced(args: Seq<Seq<char>>) -> Seq<char>
    decreases args.len(),
{
    if args.len() == 0 {
        seq![]
    } else {
        seq![' '] + args[0] + spaced(args.drop_first())
    }
}

/// The wire line of a message: `:prefix ` if there is a prefix, the command,
/// each argument after a space, ` :suffix` if there is a suffix, and the
/// terminator. Tags are not written.
pub open spec fn serialize_spec(m: MessageView) -> Seq<char> {
    (match m.prefix {
        Some(p) => seq![':'] + p + seq![' '],
        None => seq![],
    }) + m.command + spaced(m.args) + (match m.suffix {
        Some(s) => seq![' ', ':'] + s,
        None => seq![],
    }) + seq!['\r', '\n']
}

/// The nickname of a message source: none for no prefix or a server name
/// (one holding a `.`); otherwise the text before the first `!`, else before
/// the first `@`, else the whole prefix.
pub open spec fn nickname_spec(prefix: Option<Seq<char>>) -> Option<Seq<char>> {
    match prefix {
        None => None,
        Some(p) => if p.contains('.') {
            None
        } else {
            match find_char(p, '!') {
                Some(i) => Some(p.subrange(0, i)),
                None => match find_char(p, '@') {
                    Some(i) => Some(p.subrange(0, i)),
                    None => Some(p),
                },
            }
        },
    }
}

/// Spacing one more argument appends a space and the argument.
pub proof fn lemma_spaced_push(a: Seq<Seq<char>>, x: Seq<char>)
    ensures
        spaced(a.push(x)) == spaced(a) + seq![' '] + x,
    decreases a.len(),
{
    let b = a.push(x);
    if a.len() > 0 {
        lemma_spaced_push(a.drop_first(), x);
        assert(b.drop_first() =~= a.drop_first().push(x));
        assert(b[0] == a[0]);
        assert(spaced(b) == seq![' '] + a[0] + (spaced(a.drop_first()) + seq![' '] + x));
    } else {
        assert(b.drop_first() =~= Seq::<Seq<char>>::empty());
        assert(spaced(b.drop_first()) == Seq::<char>::empty());
        assert(spaced(a) == Seq::<char>::empty());
    }
    assert(spaced(b) =~= spaced(a) + seq![' '] + x);
}

/// `find_char` finds something exactly when the character occurs.
pub proof fn lemma_find_char_contains(s: Seq<char>, c: char)
    ensures
        find_char(s, c) is Some <==> s.contains(c),
    decreases s.len(),
{
    if s.len() > 0 {
        let t = s.drop_first();
        lemma_find_char_contains(t, c);
        if t.contains(c) {
            let j = choose|j: int| 0 <= j < t.len() && t[j] == c;
            assert(s[j + 1] == c);
        }
        if s.contains(c) && s[0] != c {
            let j = choose|j: int| 0 <= j < s.len() && s[j] == c;
            assert(t[j - 1] == c);
        }
    }
}

/// Owned copies of borrowed strings, in order.
fn owned_all(v: &Vec<&str>) -> (r: Vec<String>)
    ensures
        strings_view(r@) == v@.map_values(|s: &str| s@),
{
    let mut r: Vec<String> = Vec::new();
    let mut i: usize = 0;
    while i < v.len()
        invariant
            i <= v@.len(),
            r@.len() == i,
            strings_view(r@) == v@.take(i as int).map_values(|s: &str| s@),
        decreases v@.len() - i,
    {
        let o: String = v[i].to_owned();
        assert(o@ == v@[i as int]@);
        let ghost before = strings_view(r@);
        r.push(o);
        assert(strings_view(r@) =~= before.push(o@));
        assert(v@.take(i + 1).map_values(|s: &str| s@) =~= v@.take(i as int).map_values(|s: &str| s@).push(v@[i as int]@));
        assert(strings_view(r@) =~= v@.take(i + 1).map_values(|s: &str| s@));
        i = i + 1;
    }
    assert(v@.take(i as int) =~= v@);
    r
}

fn owned_opt(o: Option<&str>) -> (r: Option<String>)
    ensures
        opt_view(r) == opt_str_view(o),
{
    match o {
        Some(s) => Some(s.to_owned()),
        None => None,
    }
}

impl Message {
    /// Creates a message without tags from borrowed parts.
    pub fn new(prefix: Option<&str>, command: &str, args: Option<Vec<&str>>, suffix: Option<&str>) -> (r: Message)
        ensures
            r@ == (MessageView {
                tags: None,
                prefix: opt_str_view(prefix),
                command: command@,
                args: match args {
                    Some(v) => v@.map_values(|s: &str| s@),
                    None => seq![],
                },
                suffix: opt_str_view(suffix),
            }),
    {
        Message::with_tags(None, prefix, command, args, suffix)
    }

    /// Creates a message from borrowed parts, with optional tags.
    pub fn with_tags(
        tags: Option<Vec<Tag>>,
        prefix: Option<&str>,
        command: &str,
        args: Option<Vec<&str>>,
        suffix: Option<&str>,
    ) -> (r: Message)
        ensures
            r@ == (MessageView {
                tags: tags_view(tags),
                prefix: opt_str_view(prefix),
                command: command@,
                args: match args {
                    Some(v) => v@.map_values(|s: &str| s@),
                    None => seq![],
                },
                suffix: opt_str_view(suffix),
            }),
    {
        let owned = match args {
            Some(v) => owned_all(&v),
            None => Vec::new(),
        };
        assert(strings_view(owned@) =~= (match args {
            Some(v) => v@.map_values(|s: &str| s@),
            None => seq![],
        }));
        Message {
            tags: tags,
            prefix: owned_opt(prefix),
            command: command.to_owned(),
            args: owned,
            suffix: owned_opt(suffix),
        }
    }

    /// Creates a message without tags from owned parts.
    pub fn from_owned(prefix: Option<String>, command: String, args: Option<Vec<String>>, suffix: Option<String>) -> (r: Message)
        ensures
            r@ == (MessageView {
                tags: None,
                prefix: opt_view(prefix),
                command: command@,
                args: match args {
                    Some(v) => strings_view(v@),
                    None => seq![],
                },
                suffix: opt_view(suffix),
            }),
    {
        let owned = match args {
            Some(v) => v,
            None => Vec::new(),
        };
        assert(strings_view(owned@) =~= (match args {
            Some(v) => strings_view(v@),
            None => seq![],
        }));
        Message { tags: None, prefix: prefix, command: command, args: owned, suffix: suffix }
    }

    /// The nickname of the message source, if the source is a user.
    pub fn get_source_nickname(&self) -> (r: Option<&str>)
        ensures
            opt_str_view(r) == nickname_spec(self@.prefix),
    {
        match &self.prefix {
            None => None,
            Some(p) => {
                let s = p.as_str();
                let cs = chars_of(s);
                let n = cs.len();
                proof {
                    assert(cs@.subrange(0, n as int) =~= s@);
                    lemma_find_char_contains(s@, '.');
                }
                if scan_for(&cs, 0, n, '.') < n {
                    return None;
                }
                let i = scan_for(&cs, 0, n, '!');
                if i < n {
                    return Some(s.substring_char(0, i));
                }
                let i = scan_for(&cs, 0, n, '@');
                if i < n {
                    return Some(s.substring_char(0, i));
                }
                Some(s)
            },
        }
    }

    /// The wire line of this message; tags are not written.
    pub fn into_string(&self) -> (r: String)
        ensures
            r@ == serialize_spec(self@),
    {
        proof {
            reveal_strlit(":");
            reveal_strlit(" ");
            reveal_strlit(" :");
            reveal_strlit("\r\n");
        }
        let mut ret = String::new();
        if let Some(prefix) = &self.prefix {
            ret.append(":");
            ret.append(prefix.as_str());
            ret.append(" ");
        }
        ret.append(self.command.as_str());
        let ghost head = ret@;
        let mut i: usize = 0;
        while i < self.args.len()
            invariant
                i <= self.args@.len(),
                ret@ == head + spaced(strings_view(self.args@).take(i as int)),
            decreases self.args@.len() - i,
        {
            proof {
                reveal_strlit(" ");
            }
            ret.append(" ");
            ret.append(self.args[i].as_str());
            proof {
                let a = strings_view(self.args@);
                assert(a[i as int] == self.args@[i as int]@);
                assert(a.take(i + 1) =~= a.take(i as int).push(a[i as int]));
                lemma_spaced_push(a.take(i as int), a[i as int]);
                assert(ret@ =~= head + spaced(a.take(i + 1)));
            }
            i = i + 1;
        }
        assert(strings_view(self.args@).take(i as int) =~= strings_view(self.args@));
        if let Some(suffix) = &self.suffix {
            ret.append(" :");
            ret.append(suffix.as_str());
        }
        ret.append("\r\n");
        assert(ret@ =~= serialize_spec(self@));
        ret
    }
}

} // verus!
