//! `systemd-escape` name and path escaping, plus the `ExecStart=` argument
//! quoting rules.
//!
//! Mount and automount unit filenames are not free-form: systemd derives the
//! unit name from the mount point, so `/srv/my-share` must become
//! `srv-my\x2dshare.mount` exactly.

use crate::parts;
use crate::text;
use vstd::prelude::*;
use vstd::utf8;

verus! {

broadcast use vstd::string::group_string_axioms;

// ---------------------------------------------------------------------------
// Names
// ---------------------------------------------------------------------------

/// The bytes a unit name keeps as they are. `-` and `\` carry meaning and
/// are always escaped.
pub open spec fn is_plain_byte(b: u8) -> bool {
    ||| 0x30 <= b <= 0x39
    ||| 0x41 <= b <= 0x5a
    ||| 0x61 <= b <= 0x7a
    ||| b == 0x3a
    ||| b == 0x5f
    ||| b == 0x2e
}

/// A lower-case hexadecimal digit.
pub open spec fn hex_char(d: int) -> char {
    if d < 10 {
        (0x30 + d) as char
    } else {
        (0x61 + d - 10) as char
    }
}

/// The value of a hexadecimal digit in either case.
pub open spec fn hex_value(b: u8) -> Option<int> {
    if 0x30 <= b <= 0x39 {
        Some(b - 0x30)
    } else if 0x61 <= b <= 0x66 {
        Some(b - 0x61 + 10)
    } else if 0x41 <= b <= 0x46 {
        Some(b - 0x41 + 10)
    } else {
        None
    }
}

/// The byte that the two characters of a `\x` sequence denote, where both are
/// hexadecimal digits.
pub open spec fn hex_pair(a: u8, b: u8) -> Option<u8> {
    match (hex_value(a), hex_value(b)) {
        (Some(h), Some(l)) => Some((h * 16 + l) as u8),
        _ => None,
    }
}

/// One byte of a name, escaped.
pub open spec fn escape_byte_of(b: u8) -> Seq<char> {
    if b == 0x2f {
        seq!['-']
    } else if is_plain_byte(b) {
        seq![b as char]
    } else {
        seq!['\\', 'x', hex_char(b as int / 16), hex_char(b as int % 16)]
    }
}

/// The bytes of a name, escaped one by one.
pub open spec fn escape_bytes(b: Seq<u8>) -> Seq<char>
    decreases b.len(),
{
    if b.len() == 0 {
        seq![]
    } else {
        escape_byte_of(b[0]) + escape_bytes(b.skip(1))
    }
}

/// The escaped form of a name: `/` becomes `-`, a byte outside the plain set
/// becomes `\xNN`, and the bare names `.` and `..` are escaped whole.
pub open spec fn escape_name_of(s: Seq<char>) -> Seq<char> {
    if s == seq!['.'] {
        seq!['\\', 'x', '2', 'e']
    } else if s == seq!['.', '.'] {
        seq!['\\', 'x', '2', 'e', '\\', 'x', '2', 'e']
    } else {
        escape_bytes(utf8::encode_utf8(s))
    }
}

/// The bytes an escaped name stands for. A malformed `\x` sequence stands for
/// itself.
pub open spec fn unescape_bytes(b: Seq<u8>) -> Seq<u8>
    decreases b.len(),
{
    if b.len() == 0 {
        seq![]
    } else if b[0] == 0x2d {
        seq![0x2fu8] + unescape_bytes(b.skip(1))
    } else if b[0] == 0x5c && b.len() > 3 && b[1] == 0x78 && hex_pair(b[2], b[3]) is Some {
        seq![hex_pair(b[2], b[3])->0] + unescape_bytes(b.skip(4))
    } else {
        seq![b[0]] + unescape_bytes(b.skip(1))
    }
}

/// What `String::from_utf8_lossy` reads out of a byte sequence.
pub uninterp spec fn utf8_lossy(bytes: Seq<u8>) -> Seq<char>;

/// The name an escaped name stands for.
pub open spec fn unescape_name_of(s: Seq<char>) -> Seq<char> {
    utf8_lossy(unescape_bytes(utf8::encode_utf8(s)))
}

/// `String::from_utf8_lossy`: bytes that are UTF-8 are decoded; what comes
/// out for other bytes depends on the bytes alone and is not stated further.
#[verifier::external_body]
fn decode_lossy(bytes: &[u8]) -> (r: String)
    ensures
        r@ == utf8_lossy(bytes@),
        utf8::valid_utf8(bytes@) ==> r@ == utf8::decode_utf8(bytes@),
{
    String::from_utf8_lossy(bytes).into_owned()
}

fn plain_byte(b: u8) -> (r: bool)
    ensures
        r == is_plain_byte(b),
{
    (0x30 <= b && b <= 0x39) || (0x41 <= b && b <= 0x5a) || (0x61 <= b && b <= 0x7a) || b == 0x3a
        || b == 0x5f || b == 0x2e
}

fn hex_digit(d: u8) -> (r: char)
    requires
        d < 16,
    ensures
        r == hex_char(d as int),
{
    if d < 10 {
        (0x30 + d) as char
    } else {
        (0x61 + (d - 10)) as char
    }
}

fn hex_of(b: u8) -> (r: Option<u8>)
    ensures
        match r {
            Some(v) => hex_value(b) == Some(v as int) && v < 16,
            None => hex_value(b) is None,
        },
{
    if 0x30 <= b && b <= 0x39 {
        Some((b - 0x30) as u8)
    } else if 0x61 <= b && b <= 0x66 {
        Some((b - 0x61 + 10) as u8)
    } else if 0x41 <= b && b <= 0x46 {
        Some((b - 0x41 + 10) as u8)
    } else {
        None
    }
}

fn pair_of(a: u8, b: u8) -> (r: Option<u8>)
    ensures
        r == hex_pair(a, b),
{
    match (hex_of(a), hex_of(b)) {
        (Some(h), Some(l)) => Some((h * 16 + l) as u8),
        _ => None,
    }
}

/// Escape a name the way systemd's `unit_name_escape()` does.
pub fn escape_name(s: &str) -> (r: String)
    ensures
        r@ == escape_name_of(s@),
{
    let v = text::chars_of(s);
    if v.len() == 1 && v[0] == '.' {
        assert(s@ =~= seq!['.']);
        proof {
            reveal_strlit("\\x2e");
            assert("\\x2e"@ =~= seq!['\\', 'x', '2', 'e']);
        }
        return "\\x2e".to_owned();
    }
    if v.len() == 2 && v[0] == '.' && v[1] == '.' {
        assert(s@ =~= seq!['.', '.']);
        proof {
            reveal_strlit("\\x2e\\x2e");
            assert("\\x2e\\x2e"@ =~= seq!['\\', 'x', '2', 'e', '\\', 'x', '2', 'e']);
        }
        return "\\x2e\\x2e".to_owned();
    }
    let b = s.as_bytes();
    let mut out = String::new();
    let mut i: usize = 0;
    assert(b@.skip(0) =~= b@);
    while i < b.len()
        invariant
            i <= b@.len(),
            out@ + escape_bytes(b@.skip(i as int)) == escape_bytes(b@),
        decreases b@.len() - i,
    {
        let c: u8 = b[i];
        let ghost before = out@;
        let ghost rest = b@.skip(i as int);
        if c == 0x2f {
            out.push('-');
        } else if plain_byte(c) {
            out.push(c as char);
        } else {
            out.push('\\');
            out.push('x');
            out.push(hex_digit(c / 16));
            out.push(hex_digit(c % 16));
        }
        proof {
            assert(out@ =~= before + escape_byte_of(c));
            assert(rest.skip(1) =~= b@.skip(i + 1));
            assert(before + (escape_byte_of(c) + escape_bytes(rest.skip(1))) =~= out@
                + escape_bytes(b@.skip(i + 1)));
        }
        i += 1;
    }
    assert(b@.skip(i as int) =~= seq![]);
    assert(out@ + escape_bytes(b@.skip(i as int)) =~= out@);
    out
}

/// Read an escaped name back. A malformed `\x` sequence is passed through
/// verbatim.
pub fn unescape_name(s: &str) -> (r: String)
    ensures
        r@ == unescape_name_of(s@),
        utf8::valid_utf8(unescape_bytes(utf8::encode_utf8(s@))) ==> r@ == utf8::decode_utf8(
            unescape_bytes(utf8::encode_utf8(s@)),
        ),
{
    let b = s.as_bytes();
    let n: usize = b.len();
    let mut out: Vec<u8> = Vec::new();
    let mut i: usize = 0;
    assert(b@.skip(0) =~= b@);
    assert(out@ + unescape_bytes(b@) =~= unescape_bytes(b@));
    while i < n
        invariant
            n == b@.len(),
            i <= n,
            out@ + unescape_bytes(b@.skip(i as int)) == unescape_bytes(b@),
        decreases n - i,
    {
        let ghost before = out@;
        let ghost rest = b@.skip(i as int);
        let pair = if b[i] == 0x5c && n - i > 3 && b[i + 1] == 0x78 {
            pair_of(b[i + 2], b[i + 3])
        } else {
            None
        };
        if b[i] == 0x2d {
            out.push(0x2f);
            proof {
                assert(rest.skip(1) =~= b@.skip(i + 1));
                assert(before + (seq![0x2fu8] + unescape_bytes(b@.skip(i + 1))) =~= out@
                    + unescape_bytes(b@.skip(i + 1)));
            }
            i += 1;
        } else {
            match pair {
                Some(v) => {
                    out.push(v);
                    proof {
                        assert(rest.skip(4) =~= b@.skip(i + 4));
                        assert(before + (seq![v] + unescape_bytes(b@.skip(i + 4))) =~= out@
                            + unescape_bytes(b@.skip(i + 4)));
                    }
                    i += 4;
                },
                None => {
                    out.push(b[i]);
                    proof {
                        assert(rest.skip(1) =~= b@.skip(i + 1));
                        assert(before + (seq![rest[0]] + unescape_bytes(b@.skip(i + 1))) =~= out@
                            + unescape_bytes(b@.skip(i + 1)));
                    }
                    i += 1;
                },
            }
        }
    }
    proof {
        assert(b@.skip(i as int) =~= seq![]);
        assert(out@ + unescape_bytes(b@.skip(i as int)) =~= out@);
    }
    decode_lossy(&out)
}

/// One escaped byte reads back as that byte.
proof fn lemma_unescape_one(b: u8, rest: Seq<u8>)
    ensures
        utf8::is_ascii_chars(escape_byte_of(b)),
        unescape_bytes(
            Seq::new(escape_byte_of(b).len(), |i: int| escape_byte_of(b)[i] as u8) + rest,
        ) == seq![b] + unescape_bytes(rest),
{
    let e = escape_byte_of(b);
    let head = Seq::new(e.len(), |i: int| e[i] as u8);
    let all = head + rest;
    if b == 0x2f || is_plain_byte(b) {
        assert(all.skip(1) =~= rest);
        assert(all[0] == head[0]);
    } else {
        assert(b as int / 16 < 16 && b as int % 16 < 16);
        assert(all[0] == head[0] && all[1] == head[1] && all[2] == head[2] && all[3] == head[3]);
        assert(all.skip(4) =~= rest);
        assert(hex_value(all[2]) == Some(b as int / 16));
        assert(hex_value(all[3]) == Some(b as int % 16));
        assert(hex_pair(all[2], all[3]) == Some(b));
    }
}

proof fn lemma_unescape_escape_bytes(b: Seq<u8>)
    ensures
        utf8::is_ascii_chars(escape_bytes(b)),
        unescape_bytes(Seq::new(escape_bytes(b).len(), |i: int| escape_bytes(b)[i] as u8)) == b,
    decreases b.len(),
{
    let e = escape_bytes(b);
    let all = Seq::new(e.len(), |i: int| e[i] as u8);
    if b.len() == 0 {
        assert(all =~= seq![]);
        assert(b =~= seq![]);
    } else {
        let t = escape_bytes(b.skip(1));
        let h = escape_byte_of(b[0]);
        lemma_unescape_escape_bytes(b.skip(1));
        let tail = Seq::new(t.len(), |i: int| t[i] as u8);
        lemma_unescape_one(b[0], tail);
        assert(all =~= Seq::new(h.len(), |i: int| h[i] as u8) + tail);
        assert(seq![b[0]] + b.skip(1) =~= b);
        assert forall|i: int| 0 <= i < e.len() implies 0 <= #[trigger] e[i] as int && (e[i] as int)
            < 128 by {
            if i < h.len() {
                assert(e[i] == h[i]);
            } else {
                assert(e[i] == t[i - h.len()]);
            }
        }
    }
}

/// Unescaping what escaping wrote: the bytes of an escaped name stand for the
/// bytes of the name, whatever the name.
pub proof fn law_unescape_escape_name(s: Seq<char>)
    ensures
        unescape_bytes(utf8::encode_utf8(escape_name_of(s))) == utf8::encode_utf8(s),
        utf8::decode_utf8(unescape_bytes(utf8::encode_utf8(escape_name_of(s)))) == s,
{
    broadcast use {utf8::encode_utf8_decode_utf8, utf8::encode_utf8_valid_utf8};

    let b = utf8::encode_utf8(s);
    lemma_unescape_escape_bytes(b);
    let e = escape_bytes(b);
    if s == seq!['.'] || s == seq!['.', '.'] {
        utf8::is_ascii_chars_encode_utf8(s);
        let n = escape_name_of(s);
        utf8::is_ascii_chars_encode_utf8(n);
        let eb = utf8::encode_utf8(n);
        reveal_with_fuel(unescape_bytes, 3);
        assert(hex_pair(0x32, 0x65) == Some(0x2eu8));
        assert(eb.skip(4) =~= utf8::encode_utf8(n).skip(4));
        if s == seq!['.'] {
            assert(eb.skip(4) =~= seq![]);
            assert(unescape_bytes(eb) =~= b);
        } else {
            assert(eb.skip(4).skip(4) =~= seq![]);
            assert(unescape_bytes(eb) =~= b);
        }
    } else {
        utf8::is_ascii_chars_encode_utf8(e);
        assert(utf8::encode_utf8(e) =~= Seq::new(e.len(), |i: int| e[i] as u8));
    }
}

// ---------------------------------------------------------------------------
// Paths
// ---------------------------------------------------------------------------

/// The pieces of a path that name something: neither empty nor `.`.
pub open spec fn named_parts(pieces: Seq<Seq<char>>) -> Seq<Seq<char>> {
    pieces.filter(|p: Seq<char>| p.len() > 0 && p != seq!['.'])
}

/// The components of a path.
pub open spec fn components_of(path: Seq<char>) -> Seq<Seq<char>> {
    named_parts(parts::split_of(path, '/'))
}

/// A path with `//` collapsed, `.` components dropped and trailing slashes
/// stripped. `..` is left alone.
pub open spec fn simplify_of(path: Seq<char>) -> Seq<char> {
    let joined = parts::join_of(components_of(path), seq!['/']);
    if path.len() > 0 && path[0] == '/' {
        seq!['/'] + joined
    } else {
        joined
    }
}

/// The unit name of a mount point, or why it has none.
pub open spec fn escape_path_of(path: Seq<char>) -> Result<Seq<char>, Seq<char>> {
    let c = components_of(path);
    if !(path.len() > 0 && path[0] == '/') {
        Err("'"@ + path + "' is not an absolute path"@)
    } else if c.contains(seq!['.', '.']) {
        Err("'"@ + path + "' is not a normalized path (contains '..')"@)
    } else if c.len() == 0 {
        Ok(seq!['-'])
    } else {
        Ok(escape_name_of(parts::join_of(c, seq!['/'])))
    }
}

/// The path a mount unit name stands for.
pub open spec fn unescape_path_of(name: Seq<char>) -> Seq<char> {
    if name == seq!['-'] {
        seq!['/']
    } else {
        seq!['/'] + unescape_name_of(name)
    }
}

/// The components of a path.
fn components(path: &str) -> (r: Vec<String>)
    ensures
        text::texts(r@) == components_of(path@),
{
    let pieces = parts::split(path, '/');
    let ghost all = text::texts(pieces@);
    let ghost keep = |p: Seq<char>| p.len() > 0 && p != seq!['.'];
    let mut out: Vec<String> = Vec::new();
    let mut i: usize = 0;
    assert(all.take(0) =~= seq![]);
    assert(all.take(0).filter(keep) =~= seq![]) by {
        reveal(Seq::filter);
    }
    while i < pieces.len()
        invariant
            i <= pieces@.len(),
            all == text::texts(pieces@),
            keep == (|p: Seq<char>| p.len() > 0 && p != seq!['.']),
            text::texts(out@) == all.take(i as int).filter(keep),
        decreases pieces@.len() - i,
    {
        let ghost before = text::texts(out@);
        proof {
            let t = all.take(i + 1);
            assert(t.drop_last() =~= all.take(i as int));
            assert(t.last() == pieces@[i as int]@);
            reveal(Seq::filter);
            reveal_strlit(".");
            assert("."@ =~= seq!['.']);
        }
        if !pieces[i].as_str().is_empty() && !text::same(pieces[i].as_str(), ".") {
            out.push(pieces[i].clone());
            assert(text::texts(out@) =~= before.push(pieces@[i as int]@));
        }
        i += 1;
    }
    assert(all.take(pieces@.len() as int) =~= all);
    out
}

/// Collapse `//`, drop `.` components and strip trailing slashes, the way
/// systemd's `path_simplify()` does.
pub fn simplify(path: &str) -> (r: String)
    ensures
        r@ == simplify_of(path@),
{
    let c = components(path);
    proof {
        reveal_strlit("/");
        assert("/"@ =~= seq!['/']);
    }
    let joined = parts::join(&c, "/");
    if text::starts_with(path, "/") {
        let mut out = String::new();
        out.push('/');
        out.push_str(joined.as_str());
        assert(out@ =~= seq!['/'] + joined@);
        assert(path@[0] == "/"@[0]);
        out
    } else {
        assert(path@.len() > 0 && path@[0] == '/' ==> seq!['/'].is_prefix_of(path@));
        joined
    }
}

/// The unit name (without suffix) for a mount point.
///
/// Relative paths and paths with a `..` component are refused: systemd does
/// not escape them reversibly.
pub fn escape_path(path: &str) -> (r: Result<String, String>)
    ensures
        match r {
            Ok(n) => escape_path_of(path@) == Ok::<Seq<char>, Seq<char>>(n@),
            Err(e) => escape_path_of(path@) == Err::<Seq<char>, Seq<char>>(e@),
        },
{
    proof {
        reveal_strlit("/");
        assert("/"@ =~= seq!['/']);
        reveal_strlit("-");
        assert("-"@ =~= seq!['-']);
        reveal_strlit("..");
        assert(".."@ =~= seq!['.', '.']);
    }
    if !text::starts_with(path, "/") {
        assert(path@.len() > 0 && path@[0] == '/' ==> seq!['/'].is_prefix_of(path@));
        let mut e = "'".to_owned();
        e.push_str(path);
        e.push_str("' is not an absolute path");
        return Err(e);
    }
    assert(path@[0] == "/"@[0]);
    let c = components(path);
    let ghost all = text::texts(c@);
    let mut i: usize = 0;
    while i < c.len()
        invariant
            i <= c@.len(),
            all == text::texts(c@),
            ".."@ == seq!['.', '.'],
            forall|k: int| 0 <= k < i ==> #[trigger] all[k] != seq!['.', '.'],
            all == components_of(path@),
            path@.len() > 0 && path@[0] == '/',
        decreases c@.len() - i,
    {
        if text::same(c[i].as_str(), "..") {
            assert(all[i as int] == seq!['.', '.']);
            let mut e = "'".to_owned();
            e.push_str(path);
            e.push_str("' is not a normalized path (contains '..')");
            return Err(e);
        }
        i += 1;
    }
    if c.len() == 0 {
        return Ok("-".to_owned());
    }
    let joined = parts::join(&c, "/");
    Ok(escape_name(joined.as_str()))
}

/// Turn a mount unit name back into an absolute path.
pub fn unescape_path(name: &str) -> (r: String)
    ensures
        r@ == unescape_path_of(name@),
        name@ != seq!['-'] && utf8::valid_utf8(unescape_bytes(utf8::encode_utf8(name@))) ==> r@
            == seq!['/'] + utf8::decode_utf8(unescape_bytes(utf8::encode_utf8(name@))),
{
    proof {
        reveal_strlit("-");
        assert("-"@ =~= seq!['-']);
        reveal_strlit("/");
        assert("/"@ =~= seq!['/']);
    }
    if text::same(name, "-") {
        return "/".to_owned();
    }
    let rest = unescape_name(name);
    let mut out = "/".to_owned();
    out.push_str(rest.as_str());
    out
}

/// Joining components puts a component's first character first.
proof fn lemma_join_first(c: Seq<Seq<char>>)
    requires
        c.len() > 0,
        c[0].len() > 0,
    ensures
        parts::join_of(c, seq!['/']).len() > 0,
        parts::join_of(c, seq!['/'])[0] == c[0][0],
    decreases c.len(),
{
    if c.len() > 1 {
        lemma_join_first(c.drop_last());
        assert(c.drop_last()[0] == c[0]);
    }
}

/// A piece of a split text does not hold the character it was split at.
pub proof fn lemma_split_pieces(s: Seq<char>, c: char)
    ensures
        forall|i: int|
            0 <= i < parts::split_of(s, c).len() ==> !(#[trigger] parts::split_of(s, c)[i]).contains(c),
    decreases s.len(),
{
    text::lemma_first_index(s, c);
    let k = text::first_index(s, c);
    let all = parts::split_of(s, c);
    if k < s.len() {
        lemma_split_pieces(s.skip(k + 1), c);
        let rest = parts::split_of(s.skip(k + 1), c);
        assert forall|i: int| 0 <= i < all.len() implies !(#[trigger] all[i]).contains(c) by {
            if i == 0 {
                assert(all[0] == s.take(k));
            } else {
                assert(all[i] == rest[i - 1]);
            }
        }
    } else {
        assert(all[0] == s);
    }
}

/// The components of a path are not empty and hold no slash.
pub proof fn lemma_components(path: Seq<char>)
    ensures
        forall|i: int|
            0 <= i < components_of(path).len() ==> (#[trigger] components_of(path)[i]).len() > 0
                && !components_of(path)[i].contains('/'),
{
    let pieces = parts::split_of(path, '/');
    let keep = |p: Seq<char>| p.len() > 0 && p != seq!['.'];
    lemma_split_pieces(path, '/');
    let c = components_of(path);
    assert(c == pieces.filter(keep));
    assert forall|i: int| 0 <= i < c.len() implies (#[trigger] c[i]).len() > 0 && !c[i].contains(
        '/',
    ) by {
        pieces.lemma_filter_pred(keep, i);
        assert(c.contains(c[i]));
        pieces.lemma_filter_contains_rev(keep, c[i]);
    }
}

/// Reading the unit name of a mount point back gives the simplified path: the
/// name's bytes stand for it exactly, and they are UTF-8.
pub proof fn law_unescape_escape_path(path: Seq<char>)
    requires
        escape_path_of(path) is Ok,
    ensures
        ({
            let name = escape_path_of(path)->Ok_0;
            let bytes = unescape_bytes(utf8::encode_utf8(name));
            if name == seq!['-'] {
                unescape_path_of(name) == simplify_of(path)
            } else {
                &&& utf8::valid_utf8(bytes)
                &&& seq!['/'] + utf8::decode_utf8(bytes) == simplify_of(path)
            }
        }),
{
    broadcast use {utf8::encode_utf8_decode_utf8, utf8::encode_utf8_valid_utf8};

    let c = components_of(path);
    let name = escape_path_of(path)->Ok_0;
    if c.len() == 0 {
        assert(simplify_of(path) =~= seq!['/']);
    } else {
        let joined = parts::join_of(c, seq!['/']);
        lemma_components(path);
        assert(!c[0].contains('/'));
        lemma_join_first(c);
        law_unescape_escape_name(joined);
        if name == seq!['-'] {
            let b = utf8::encode_utf8(name);
            utf8::is_ascii_chars_encode_utf8(name);
            assert(b =~= seq![0x2du8]);
            assert(b.skip(1) =~= seq![]);
            assert(unescape_bytes(b.skip(1)) =~= seq![]);
            assert(unescape_bytes(b) =~= seq![0x2fu8]);
            let slash = seq!['/'];
            utf8::is_ascii_chars_encode_utf8(slash);
            assert(utf8::encode_utf8(slash) =~= seq![0x2fu8]);
            assert(joined == slash);
            assert(joined[0] == c[0][0]);
            assert(c[0].contains('/'));
        }
    }
}

// ---------------------------------------------------------------------------
// Slugs
// ---------------------------------------------------------------------------

/// The letters and digits of `s` in lower case, with one dash for each run of
/// other characters that follows some.
pub open spec fn dashed(s: Seq<char>) -> Seq<char>
    decreases s.len(),
{
    if s.len() == 0 {
        seq![]
    } else {
        let p = dashed(s.drop_last());
        let c = s.last();
        if text::is_alnum(c) {
            p.push(text::lower_of(c))
        } else if p.len() == 0 || p.last() == '-' {
            p
        } else {
            p.push('-')
        }
    }
}

/// `s` without a dash at its end.
pub open spec fn strip_dash(s: Seq<char>) -> Seq<char> {
    if s.len() > 0 && s.last() == '-' {
        s.drop_last()
    } else {
        s
    }
}

/// The first `w` characters of `s`, or all of them.
pub open spec fn clip_of(s: Seq<char>, w: int) -> Seq<char> {
    if s.len() <= w {
        s
    } else {
        s.take(w)
    }
}

/// The slug of a text.
pub open spec fn slug_of(s: Seq<char>) -> Seq<char> {
    clip_of(strip_dash(dashed(s)), 40)
}

/// The first `w` characters of `s`, or all of them.
pub fn clip(s: &str, w: usize) -> (r: String)
    ensures
        r@ == clip_of(s@, w as int),
{
    let n: usize = s.unicode_len();
    if n <= w {
        s.to_owned()
    } else {
        assert(s@.subrange(0, w as int) =~= s@.take(w as int));
        s.substring_char(0, w).to_owned()
    }
}

/// A slug usable as a unit name, derived from free text: lower case, runs of
/// other characters collapse to single dashes, capped at 40 characters.
pub fn slugify(s: &str) -> (r: String)
    ensures
        r@ == slug_of(s@),
{
    let v = text::chars_of(s);
    let mut out: Vec<char> = Vec::new();
    let mut i: usize = 0;
    assert(s@.take(0) =~= seq![]);
    while i < v.len()
        invariant
            v@ == s@,
            i <= v@.len(),
            out@ == dashed(s@.take(i as int)),
        decreases v@.len() - i,
    {
        let c = v[i];
        proof {
            assert(s@.take(i + 1).drop_last() =~= s@.take(i as int));
        }
        if text::alnum(c) {
            out.push(text::lower(c));
        } else if out.len() > 0 && out[out.len() - 1] != '-' {
            out.push('-');
        }
        i += 1;
    }
    assert(s@.take(v@.len() as int) =~= s@);
    if out.len() > 0 && out[out.len() - 1] == '-' {
        out.pop();
        assert(out@ =~= dashed(s@).drop_last());
    }
    let all = text::string_of(&out);
    clip(all.as_str(), 40)
}

/// Whether a character can stand in a slug.
pub open spec fn is_slug_char(c: char) -> bool {
    text::is_digit(c) || 'a' <= c <= 'z' || c == '-'
}

proof fn lemma_dashed(s: Seq<char>)
    ensures
        ({
            let d = dashed(s);
            &&& forall|i: int| 0 <= i < d.len() ==> is_slug_char(#[trigger] d[i])
            &&& d.len() > 0 ==> d[0] != '-'
            &&& forall|i: int| 0 < i < d.len() ==> !(d[i - 1] == '-' && #[trigger] d[i] == '-')
        }),
    decreases s.len(),
{
    if s.len() > 0 {
        lemma_dashed(s.drop_last());
        let p = dashed(s.drop_last());
        let d = dashed(s);
        assert forall|i: int| 0 <= i < d.len() implies is_slug_char(#[trigger] d[i]) by {
            if i < p.len() {
                assert(d[i] == p[i]);
            }
        }
        assert forall|i: int| 0 < i < d.len() implies !(d[i - 1] == '-' && #[trigger] d[i]
            == '-') by {
            if i < p.len() {
                assert(d[i] == p[i]);
            }
        }
    }
}

/// A slug has at most 40 characters, all of them lower-case letters, digits
/// or dashes, does not begin with a dash and never holds two dashes in a row.
pub proof fn law_slug_shape(s: Seq<char>)
    ensures
        slug_of(s).len() <= 40,
        forall|i: int| 0 <= i < slug_of(s).len() ==> is_slug_char(#[trigger] slug_of(s)[i]),
        slug_of(s).len() > 0 ==> slug_of(s)[0] != '-',
        forall|i: int|
            0 < i < slug_of(s).len() ==> !(slug_of(s)[i - 1] == '-' && #[trigger] slug_of(s)[i]
                == '-'),
{
    lemma_dashed(s);
    let d = dashed(s);
    let g = slug_of(s);
    assert forall|i: int| 0 <= i < g.len() implies #[trigger] g[i] == d[i] by {}
    assert forall|i: int| 0 < i < g.len() implies !(g[i - 1] == '-' && #[trigger] g[i] == '-') by {
        assert(g[i] == d[i] && g[i - 1] == d[i - 1]);
    }
}

// ---------------------------------------------------------------------------
// Command lines
// ---------------------------------------------------------------------------

/// The characters an `ExecStart=` argument may hold without quoting.
pub open spec fn is_bare(c: char) -> bool {
    ||| text::is_alnum(c)
    ||| c == '_'
    ||| c == '.'
    ||| c == '/'
    ||| c == ':'
    ||| c == '@'
    ||| c == '%'
    ||| c == '+'
    ||| c == '='
    ||| c == '-'
}

/// The characters a command line may hold without needing a shell.
pub open spec fn is_argv_char(c: char) -> bool {
    is_bare(c) || c == ' ' || c == ','
}

pub open spec fn all_bare(s: Seq<char>) -> bool {
    forall|i: int| 0 <= i < s.len() ==> is_bare(#[trigger] s[i])
}

/// `s` with a backslash before each quote and each backslash.
pub open spec fn backslashed(s: Seq<char>) -> Seq<char>
    decreases s.len(),
{
    if s.len() == 0 {
        seq![]
    } else {
        let p = backslashed(s.drop_last());
        let c = s.last();
        if c == '"' || c == '\\' {
            p.push('\\').push(c)
        } else {
            p.push(c)
        }
    }
}

/// An argument as it stands on an `ExecStart=` line.
pub open spec fn exec_quote_of(s: Seq<char>) -> Seq<char> {
    if s.len() > 0 && all_bare(s) {
        s
    } else {
        (seq!['"'] + backslashed(s)).push('"')
    }
}

/// Whether a command line holds something that only a shell can run.
pub open spec fn needs_shell_of(s: Seq<char>) -> bool {
    exists|i: int| 0 <= i < s.len() && !is_argv_char(#[trigger] s[i])
}

fn bare(c: char) -> (r: bool)
    ensures
        r == is_bare(c),
{
    text::alnum(c) || c == '_' || c == '.' || c == '/' || c == ':' || c == '@' || c == '%' || c
        == '+' || c == '=' || c == '-'
}

/// Quote one argument for an `ExecStart=` line.
pub fn exec_quote(arg: &str) -> (r: String)
    ensures
        r@ == exec_quote_of(arg@),
{
    let v = text::chars_of(arg);
    let mut i: usize = 0;
    while i < v.len() && bare(v[i])
        invariant
            i <= v@.len(),
            forall|k: int| 0 <= k < i ==> is_bare(#[trigger] v@[k]),
        decreases v@.len() - i,
    {
        i += 1;
    }
    if v.len() > 0 && i == v.len() {
        return arg.to_owned();
    }
    let mut out = String::new();
    out.push('"');
    let mut j: usize = 0;
    assert(arg@.take(0) =~= seq![]);
    assert(out@ =~= seq!['"'] + backslashed(arg@.take(0)));
    while j < v.len()
        invariant
            v@ == arg@,
            j <= v@.len(),
            out@ == seq!['"'] + backslashed(arg@.take(j as int)),
        decreases v@.len() - j,
    {
        let c = v[j];
        let ghost p = backslashed(arg@.take(j as int));
        if c == '"' || c == '\\' {
            out.push('\\');
        }
        out.push(c);
        proof {
            assert(arg@.take(j + 1).drop_last() =~= arg@.take(j as int));
            if c == '"' || c == '\\' {
                assert(out@ =~= seq!['"'] + p.push('\\').push(c));
            } else {
                assert(out@ =~= seq!['"'] + p.push(c));
            }
        }
        j += 1;
    }
    out.push('"');
    assert(arg@.take(v@.len() as int) =~= arg@);
    out
}

/// True when a command line contains anything that only a shell can run, so
/// it must go through `/bin/sh -c`.
pub fn needs_shell(line: &str) -> (r: bool)
    ensures
        r == needs_shell_of(line@),
{
    let v = text::chars_of(line);
    let mut i: usize = 0;
    while i < v.len()
        invariant
            v@ == line@,
            i <= v@.len(),
            forall|k: int| 0 <= k < i ==> is_argv_char(#[trigger] v@[k]),
        decreases v@.len() - i,
    {
        let c = v[i];
        if !(bare(c) || c == ' ' || c == ',') {
            assert(!is_argv_char(line@[i as int]));
            return true;
        }
        i += 1;
    }
    false
}

// ---------------------------------------------------------------------------
// What a slug keeps
// ---------------------------------------------------------------------------

/// The letters and digits of a text, in lower case.
pub open spec fn letters_of(s: Seq<char>) -> Seq<char>
    decreases s.len(),
{
    if s.len() == 0 {
        seq![]
    } else if text::is_alnum(s.last()) {
        letters_of(s.drop_last()).push(text::lower_of(s.last()))
    } else {
        letters_of(s.drop_last())
    }
}

proof fn lemma_letters_kept(s: Seq<char>)
    ensures
        letters_of(dashed(s)) == letters_of(s),
    decreases s.len(),
{
    if s.len() > 0 {
        let p = dashed(s.drop_last());
        let c = s.last();
        lemma_letters_kept(s.drop_last());
        assert(p.push(text::lower_of(c)).drop_last() =~= p);
        assert(p.push('-').drop_last() =~= p);
        assert(!text::is_alnum('-'));
        assert(text::is_alnum(c) ==> text::is_alnum(text::lower_of(c)) && text::lower_of(
            text::lower_of(c),
        ) == text::lower_of(c));
    }
}

/// A slug keeps all letters and digits in their order, unless it is cut.
pub proof fn law_slugs_keep_letters(s: Seq<char>)
    requires
        slug_of(s).len() < 40,
    ensures
        letters_of(slug_of(s)) == letters_of(s),
{
    let d = dashed(s);
    lemma_letters_kept(s);
    if d.len() > 0 && d.last() == '-' {
        assert(!text::is_alnum('-'));
    }
}

/// Whether a text is a slug already: lower-case letters and digits, with
/// single dashes between them.
pub open spec fn is_slug(s: Seq<char>) -> bool {
    &&& forall|i: int|
        0 <= i < s.len() ==> (text::is_alnum(#[trigger] s[i]) && text::lower_of(s[i]) == s[i])
            || s[i] == '-'
    &&& forall|i: int| 0 < i < s.len() ==> !(s[i - 1] == '-' && #[trigger] s[i] == '-')
    &&& s.len() > 0 ==> s[0] != '-'
}

proof fn lemma_dashed_slug(s: Seq<char>)
    requires
        is_slug(s),
    ensures
        dashed(s) == s,
    decreases s.len(),
{
    if s.len() > 0 {
        let d = s.drop_last();
        assert(is_slug(d)) by {
            assert forall|i: int| 0 < i < d.len() implies !(d[i - 1] == '-' && #[trigger] d[i]
                == '-') by {
                assert(s[i] == d[i] && s[i - 1] == d[i - 1]);
            }
        }
        lemma_dashed_slug(d);
        assert(s[s.len() - 1] == s.last());
        assert(d.push(s.last()) =~= s);
        if d.len() > 0 {
            assert(d.last() == s[s.len() - 2]);
        }
    } else {
        assert(s =~= seq![]);
    }
}

/// A slug is its own slug.
pub proof fn law_slugs_stay(s: Seq<char>)
    requires
        is_slug(s),
        s.len() <= 40,
        s.len() > 0 ==> s.last() != '-',
    ensures
        slug_of(s) == s,
{
    lemma_dashed_slug(s);
}

} // verus!
