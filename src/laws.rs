//! Laws relating the parser and the serializer.
use vstd::prelude::*;

use crate::message::{Message, MessageView, serialize_spec, spaced};
use crate::parse::{
    ParseError,
    MAX_ARGS, parse_spec, split_command, split_prefix, split_suffix, split_tags,
};
use crate::text::{
    find_char, lemma_find_char_at, lemma_find_marker_at, lemma_skip_spaces_at, marker_at, pieces,
    skip_spaces, strip_crlf,
};

verus! {

/// An argument that survives a trip over the wire: non-empty, without
/// spaces, and not starting with `:`.
pub open spec fn arg_safe(a: Seq<char>) -> bool {
    a.len() > 0 && !a.contains(' ') && a[0] != ':'
}

/// A message without tags whose parts the line grammar can carry back
/// unchanged: a prefix without spaces; a non-empty command without spaces,
/// not starting with `:`, nor with `@` when there is no prefix; arguments as
/// `arg_safe` says; and no more than `MAX_ARGS` arguments, fewer when there
/// is a trailing parameter.
pub open spec fn wire_safe(m: MessageView) -> bool {
    &&& m.tags is None
    &&& (m.prefix matches Some(p) ==> !p.contains(' '))
    &&& m.command.len() > 0
    &&& !m.command.contains(' ')
    &&& m.command[0] != ':'
    &&& (m.prefix is None ==> m.command[0] != '@')
    &&& forall|i: int| 0 <= i < m.args.len() ==> arg_safe(#[trigger] m.args[i])
    &&& m.args.len() <= MAX_ARGS
    &&& (m.suffix is Some ==> m.args.len() < MAX_ARGS)
}

/// In the spaced arguments, every space is followed by a character other
/// than `:`.
proof fn lemma_spaced_safe(args: Seq<Seq<char>>)
    requires
        forall|i: int| 0 <= i < args.len() ==> arg_safe(#[trigger] args[i]),
    ensures
        forall|j: int|
            0 <= j < spaced(args).len() && #[trigger] spaced(args)[j] == ' ' ==> j + 1 < spaced(
                args,
            ).len() && spaced(args)[j + 1] != ':',
    decreases args.len(),
{
    if args.len() > 0 {
        let rest = args.drop_first();
        assert forall|i: int| 0 <= i < rest.len() implies arg_safe(#[trigger] rest[i]) by {
            assert(rest[i] == args[i + 1]);
        }
        lemma_spaced_safe(rest);
        let a0 = args[0];
        assert(arg_safe(args[0]));
        let s = spaced(args);
        assert(s == seq![' '] + a0 + spaced(rest));
        assert forall|j: int| 0 <= j < s.len() && #[trigger] s[j] == ' ' implies j + 1 < s.len()
            && s[j + 1] != ':' by {
            if j == 0 {
                assert(s[1] == a0[0]);
            } else if j <= a0.len() {
                assert(s[j] == a0[j - 1]);
            } else {
                let k = j - 1 - a0.len();
                assert(s[j] == spaced(rest)[k]);
                assert(s[j + 1] == spaced(rest)[k + 1]);
            }
        }
    }
}

/// Splitting the spaced arguments (without their first space, and with at
/// most one space after them) gives the arguments back.
proof fn lemma_pieces_spaced(args: Seq<Seq<char>>, tail: Seq<char>, n: nat)
    requires
        args.len() > 0,
        forall|i: int| 0 <= i < args.len() ==> arg_safe(#[trigger] args[i]),
        tail == Seq::<char>::empty() || tail == seq![' '],
        n == 0 || args.len() < n || (args.len() == n && tail.len() == 0),
    ensures
        pieces(args[0] + spaced(args.drop_first()) + tail, ' ', n) == args,
    decreases args.len(),
{
    let a0 = args[0];
    assert(arg_safe(args[0]));
    let rest = args.drop_first();
    let x = a0 + spaced(rest) + tail;
    let n2: nat = if n == 0 { 0 } else { (n - 1) as nat };
    if rest.len() == 0 {
        assert(x =~= a0 + tail);
        if tail.len() == 0 {
            lemma_find_char_at(x, ' ', x.len() as int);
        } else {
            lemma_find_char_at(x, ' ', a0.len() as int);
            assert(x.subrange(0, a0.len() as int) =~= a0);
            assert(x.subrange(a0.len() as int + 1, x.len() as int) =~= Seq::<char>::empty());
            assert(pieces(Seq::<char>::empty(), ' ', n2) =~= Seq::<Seq<char>>::empty());
        }
        assert(pieces(x, ' ', n) =~= args);
    } else {
        let a1 = rest[0];
        let x2 = a1 + spaced(rest.drop_first()) + tail;
        assert(spaced(rest) == seq![' '] + a1 + spaced(rest.drop_first()));
        assert(x =~= a0 + seq![' '] + x2);
        lemma_find_char_at(x, ' ', a0.len() as int);
        assert(x.subrange(0, a0.len() as int) =~= a0);
        assert(x.subrange(a0.len() as int + 1, x.len() as int) =~= x2);
        assert forall|i: int| 0 <= i < rest.len() implies arg_safe(#[trigger] rest[i]) by {
            assert(rest[i] == args[i + 1]);
        }
        lemma_pieces_spaced(rest, tail, n2);
        assert(pieces(x, ' ', n) =~= args);
    }
}

spec fn prefix_part(prefix: Option<Seq<char>>) -> Seq<char> {
    match prefix {
        Some(p) => seq![':'] + p + seq![' '],
        None => Seq::<char>::empty(),
    }
}

spec fn suffix_part(suffix: Option<Seq<char>>) -> Seq<char> {
    match suffix {
        Some(s) => seq![' ', ':'] + s,
        None => Seq::<char>::empty(),
    }
}

/// What the trailing-parameter stage leaves of the text before the colon.
spec fn tail_of(suffix: Option<Seq<char>>) -> Seq<char> {
    match suffix {
        Some(s) => seq![' '],
        None => Seq::<char>::empty(),
    }
}

/// The tag and prefix stages give back the prefix and leave the rest.
proof fn lemma_front_stages(prefix: Option<Seq<char>>, r: Seq<char>)
    requires
        r.len() > 0,
        r[0] != ':',
        prefix is None ==> r[0] != '@',
        prefix matches Some(p) ==> !p.contains(' '),
    ensures
        split_prefix(split_tags(prefix_part(prefix) + r).1) == (prefix, r),
{
    let b = prefix_part(prefix) + r;
    match prefix {
        Some(p) => {
            assert(b[0] == ':');
            assert(split_tags(b).1 == b);
            assert forall|j: int| 0 <= j < 1 + p.len() as int implies b[j] != ' ' by {
                if j > 0 {
                    assert(b[j] == p[j - 1]);
                }
            }
            assert(b[1 + p.len() as int] == ' ');
            lemma_find_char_at(b, ' ', 1 + p.len() as int);
            assert(b.subrange(1, 1 + p.len() as int) =~= p);
            assert(b.subrange(2 + p.len() as int, b.len() as int) =~= r);
        },
        None => {
            assert(b =~= r);
        },
    }
}

/// The trailing-parameter stage finds the marker written before the suffix,
/// and no earlier one.
proof fn lemma_suffix_stage(c: Seq<char>, args: Seq<Seq<char>>, suffix: Option<Seq<char>>)
    requires
        c.len() > 0,
        !c.contains(' '),
        forall|i: int| 0 <= i < args.len() ==> arg_safe(#[trigger] args[i]),
    ensures
        split_suffix(c + spaced(args) + suffix_part(suffix)) == (suffix, c + spaced(args) + tail_of(suffix)),
{
    let l = c + spaced(args);
    let r = l + suffix_part(suffix);
    let tail = tail_of(suffix);
    lemma_spaced_safe(args);
    assert forall|j: int| 0 <= j < l.len() && #[trigger] l[j] == ' ' implies j + 1 < l.len() && l[j + 1] != ':' by {
        if j < c.len() {
            assert(l[j] == c[j]);
        } else {
            assert(l[j] == spaced(args)[j - c.len()]);
            assert(l[j + 1] == spaced(args)[j + 1 - c.len()]);
        }
    }
    assert forall|j: int| 0 <= j < l.len() implies !marker_at(r, j) by {
        assert(r[j] == l[j]);
        if j + 1 < l.len() {
            assert(r[j + 1] == l[j + 1]);
        }
    }
    match suffix {
        Some(s) => {
            assert(marker_at(r, l.len() as int));
            lemma_find_marker_at(r, l.len() as int);
            assert(r.subrange(l.len() as int + 2, r.len() as int) =~= s);
            assert(r.subrange(0, l.len() as int + 1) =~= l + tail);
        },
        None => {
            assert(r =~= l);
            assert(l + tail =~= l);
            lemma_find_marker_at(r, r.len() as int);
        },
    }
}

/// The command stage gives back the command, and splitting what follows
/// gives back the arguments.
proof fn lemma_command_stage(c: Seq<char>, args: Seq<Seq<char>>, tail: Seq<char>)
    requires
        c.len() > 0,
        !c.contains(' '),
        c[0] != ':',
        forall|i: int| 0 <= i < args.len() ==> arg_safe(#[trigger] args[i]),
        tail == Seq::<char>::empty() || tail == seq![' '],
        args.len() < MAX_ARGS || (args.len() == MAX_ARGS && tail.len() == 0),
    ensures
        split_command(c + spaced(args) + tail) matches Some((c2, rest)) && c2 == c && pieces(
            rest,
            ' ',
            MAX_ARGS as nat,
        ) == args,
{
    let r3 = c + spaced(args) + tail;
    assert(r3[0] == c[0]);
    lemma_skip_spaces_at(r3, 0);
    assert(r3.subrange(0, r3.len() as int) =~= r3);
    assert(skip_spaces(r3) == r3);
    assert forall|j: int| 0 <= j < c.len() implies r3[j] != ' ' by {
        assert(r3[j] == c[j]);
    }
    if args.len() > 0 {
        let x = args[0] + spaced(args.drop_first()) + tail;
        assert(r3 =~= c + seq![' '] + x);
        lemma_find_char_at(r3, ' ', c.len() as int);
        assert(r3.subrange(0, c.len() as int) =~= c);
        assert(r3.subrange(c.len() as int + 1, r3.len() as int) =~= x);
        lemma_pieces_spaced(args, tail, MAX_ARGS as nat);
    } else if tail.len() > 0 {
        assert(r3 =~= c + seq![' ']);
        lemma_find_char_at(r3, ' ', c.len() as int);
        assert(r3.subrange(0, c.len() as int) =~= c);
        assert(r3.subrange(c.len() as int + 1, r3.len() as int) =~= Seq::<char>::empty());
        assert(pieces(Seq::<char>::empty(), ' ', MAX_ARGS as nat) =~= args);
    } else {
        assert(r3 =~= c);
        lemma_find_char_at(r3, ' ', r3.len() as int);
        assert(pieces(Seq::<char>::empty(), ' ', MAX_ARGS as nat) =~= args);
    }
}

/// Parsing the wire line of a message without tags gives back its prefix,
/// command, arguments and trailing parameter, whenever its parts can be
/// carried by the line grammar at all.
pub proof fn lemma_parse_serialize(m: Message)
    requires
        wire_safe(m@),
    ensures
        parse_spec(serialize_spec(m@)) == Ok::<MessageView, ParseError>(m@),
{
    let v = m@;
    let c = v.command;
    let args = v.args;
    let r = c + spaced(args) + suffix_part(v.suffix);
    let b = prefix_part(v.prefix) + r;
    let line = serialize_spec(v);
    assert(line =~= b + seq!['\r', '\n']);
    assert(strip_crlf(line) =~= b);
    assert(r[0] == c[0]);
    lemma_front_stages(v.prefix, r);
    lemma_suffix_stage(c, args, v.suffix);
    lemma_command_stage(c, args, tail_of(v.suffix));
    assert(parse_spec(line) =~= Ok::<MessageView, ParseError>(v));
}

} // verus!
