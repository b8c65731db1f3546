//! The migration tool's reading of its arguments.

use vstd::prelude::*;
use vstd::utf8::{encode_scalar, encode_utf8, encode_utf8_decode_utf8, encode_utf8_first_scalar, encode_utf8_valid_utf8, is_char_boundary, pop_first_scalar};
use vstd::string::StringSliceAdditionalSpecFns;
use crate::broker::error::Result;

verus! {

/// `c` has the Unicode `White_Space` property (what `char::is_whitespace`
/// tests).
pub open spec fn is_white_space(c: char) -> bool {
    let v = c as u32;
    ||| 0x09 <= v <= 0x0D
    ||| v == 0x20
    ||| v == 0x85
    ||| v == 0xA0
    ||| v == 0x1680
    ||| 0x2000 <= v <= 0x200A
    ||| v == 0x2028
    ||| v == 0x2029
    ||| v == 0x202F
    ||| v == 0x205F
    ||| v == 0x3000
}

/// `cs` without the white space at its front.
pub open spec fn trim_start(cs: Seq<char>) -> Seq<char>
    decreases cs.len(),
{
    if cs.len() > 0 && is_white_space(cs[0]) {
        trim_start(cs.drop_first())
    } else {
        cs
    }
}

/// `cs` without the white space at its end.
pub open spec fn trim_end(cs: Seq<char>) -> Seq<char>
    decreases cs.len(),
{
    if cs.len() > 0 && is_white_space(cs.last()) {
        trim_end(cs.drop_last())
    } else {
        cs
    }
}

/// `cs` without the white space at either end (what `str::trim` gives).
pub open spec fn trimmed(cs: Seq<char>) -> Seq<char> {
    trim_end(trim_start(cs))
}

/// The pieces between the commas of `cs` from position `k` on, the current
/// piece having begun at `from`.
pub open spec fn pieces_from(cs: Seq<char>, from: int, k: int) -> Seq<Seq<char>>
    decreases cs.len() - k,
{
    if k >= cs.len() {
        seq![cs.subrange(from, cs.len() as int)]
    } else if cs[k] == ',' {
        seq![cs.subrange(from, k)] + pieces_from(cs, k + 1, k + 1)
    } else {
        pieces_from(cs, from, k + 1)
    }
}

/// The pieces of `cs` between its commas, empty ones included (what
/// `str::split(',')` gives): one more than there are commas.
pub open spec fn comma_pieces(cs: Seq<char>) -> Seq<Seq<char>> {
    pieces_from(cs, 0, 0)
}

/// The platforms a migration is for: all six for `all`, else the names
/// between the commas, each without the white space around it.
pub open spec fn platform_list(platforms: Seq<char>) -> Seq<Seq<char>> {
    if platforms == "all"@ {
        seq!["swift"@, "kotlin"@, "flutter"@, "react-native"@, "pwa"@, "web"@]
    } else {
        comma_pieces(platforms).map_values(|p: Seq<char>| trimmed(p))
    }
}

/// The text of each string.
pub open spec fn texts(v: Seq<String>) -> Seq<Seq<char>> {
    v.map_values(|s: String| s@)
}

/// The UTF-8 encoding of characters put together is the encodings put
/// together.
proof fn lemma_encode_concat(a: Seq<char>, b: Seq<char>)
    ensures
        encode_utf8(a + b) == encode_utf8(a) + encode_utf8(b),
    decreases a.len(),
{
    if a.len() == 0 {
        assert(a + b =~= b);
        assert(encode_utf8(a) + encode_utf8(b) =~= encode_utf8(b));
    } else {
        assert((a + b).drop_first() =~= a.drop_first() + b);
        assert((a + b)[0] == a[0]);
        lemma_encode_concat(a.drop_first(), b);
        assert(encode_utf8(a + b) =~= encode_utf8(a) + encode_utf8(b));
    }
}

/// The encoding of one character is its scalar's.
proof fn lemma_encode_one(c: char)
    ensures
        encode_utf8(seq![c]) == encode_scalar(c as u32),
{
    let one = seq![c];
    assert(one.drop_first() =~= Seq::<char>::empty());
    assert(encode_utf8(Seq::<char>::empty()) =~= Seq::<u8>::empty());
    assert(one[0] == c);
    assert(encode_utf8(one) == encode_scalar(c as u32) + encode_utf8(one.drop_first()));
    assert(encode_utf8(one) =~= encode_scalar(c as u32));
}

/// Characters with the same encoding are the same.
proof fn lemma_encode_injective(a: Seq<char>, b: Seq<char>)
    requires
        encode_utf8(a) == encode_utf8(b),
    ensures
        a == b,
{
    encode_utf8_decode_utf8(a);
    encode_utf8_decode_utf8(b);
}

/// The end of the encoding of the first `k` characters is a character
/// boundary of the whole encoding.
proof fn lemma_boundary(cs: Seq<char>, k: int)
    requires
        0 <= k <= cs.len(),
    ensures
        is_char_boundary(encode_utf8(cs), encode_utf8(cs.take(k)).len() as int),
    decreases k,
{
    encode_utf8_valid_utf8(cs);
    if k == 0 {
        assert(cs.take(0) =~= Seq::<char>::empty());
    } else {
        let bytes = encode_utf8(cs);
        encode_utf8_first_scalar(cs);
        assert(pop_first_scalar(bytes) =~= encode_utf8(cs.drop_first()));
        lemma_boundary(cs.drop_first(), k - 1);
        assert(cs.take(k) =~= seq![cs[0]] + cs.drop_first().take(k - 1));
        lemma_encode_concat(seq![cs[0]], cs.drop_first().take(k - 1));
        lemma_encode_one(cs[0]);
        encode_utf8_valid_utf8(cs.drop_first());
    }
}

/// The characters of `s`, in order.
pub(crate) fn chars_of(s: &str) -> (v: Vec<char>)
    ensures
        v@ == s@,
{
    broadcast use vstd::string::axiom_spec_iter;
    let mut v: Vec<char> = Vec::new();
    for c in it: s.chars()
        invariant
            v@ == it.seq().take(it.index() as int),
    {
        v.push(c);
    }
    v
}

/// Adding a string for one more piece keeps the strings the trimmed pieces.
proof fn lemma_texts_push(v: Seq<String>, s: String, ps: Seq<Seq<char>>, p: Seq<char>)
    requires
        texts(v) == ps.map_values(|q: Seq<char>| trimmed(q)),
        s@ == trimmed(p),
    ensures
        texts(v.push(s)) == ps.push(p).map_values(|q: Seq<char>| trimmed(q)),
{
    let l = texts(v.push(s));
    let rr = ps.push(p).map_values(|q: Seq<char>| trimmed(q));
    assert(texts(v).len() == v.len());
    assert(ps.map_values(|q: Seq<char>| trimmed(q)).len() == ps.len());
    assert(v.len() == ps.len());
    assert(l.len() == rr.len());
    assert forall|i: int| 0 <= i < l.len() implies l[i] == rr[i] by {
        if i < v.len() {
            assert(v.push(s)[i] == v[i]);
            assert(texts(v)[i] == v[i]@);
            assert(ps.push(p)[i] == ps[i]);
        }
    }
    assert(l =~= rr);
}

/// How many bytes the UTF-8 encoding of `c` takes.
fn utf8_width(c: char) -> (n: usize)
    ensures
        n == encode_scalar(c as u32).len(),
{
    proof {
        vstd::utf8::char_is_scalar(c);
    }
    let v = c as u32;
    if v <= 0x7F {
        1
    } else if v <= 0x7FF {
        2
    } else if v <= 0xFFFF {
        3
    } else {
        4
    }
}

/// The byte offset of each character of `cs` in its encoding, and of its
/// end.
fn byte_offsets(cs: &Vec<char>) -> (offs: Vec<usize>)
    requires
        encode_utf8(cs@).len() <= usize::MAX,
    ensures
        offs@.len() == cs@.len() + 1,
        forall|k: int| 0 <= k <= cs@.len() ==> #[trigger] offs@[k] == encode_utf8(cs@.take(k)).len(),
{
    let mut offs: Vec<usize> = Vec::new();
    offs.push(0);
    assert(cs@.take(0) =~= Seq::<char>::empty());
    let mut k: usize = 0;
    while k < cs.len()
        invariant
            k <= cs@.len(),
            encode_utf8(cs@).len() <= usize::MAX,
            offs@.len() == k + 1,
            forall|j: int| 0 <= j <= k ==> #[trigger] offs@[j] == encode_utf8(cs@.take(j)).len(),
        decreases cs@.len() - k,
    {
        let w = utf8_width(cs[k]);
        proof {
            assert(cs@.take(k + 1) =~= cs@.take(k as int) + seq![cs@[k as int]]);
            lemma_encode_concat(cs@.take(k as int), seq![cs@[k as int]]);
            lemma_encode_one(cs@[k as int]);
            assert(cs@ =~= cs@.take(k + 1) + cs@.skip(k + 1));
            lemma_encode_concat(cs@.take(k + 1), cs@.skip(k + 1));
        }
        let next = offs[k] + w;
        offs.push(next);
        k = k + 1;
    }
    offs
}

/// The characters of `s` from position `a` up to `b`, as a string.
fn substring(s: &str, offs: &Vec<usize>, a: usize, b: usize) -> (r: String)
    requires
        a <= b <= s@.len(),
        offs@.len() == s@.len() + 1,
        forall|k: int| 0 <= k <= s@.len() ==> #[trigger] offs@[k] == encode_utf8(s@.take(k)).len(),
    ensures
        r@ == s@.subrange(a as int, b as int),
{
    let ghost cs = s@;
    proof {
        lemma_boundary(cs, a as int);
        assert(cs =~= cs.take(a as int) + cs.skip(a as int));
        lemma_encode_concat(cs.take(a as int), cs.skip(a as int));
        assert(cs.take(b as int) =~= cs.take(a as int) + cs.skip(a as int).take(b - a));
        lemma_encode_concat(cs.take(a as int), cs.skip(a as int).take(b - a));
        lemma_boundary(cs.skip(a as int), b - a);
        assert(cs.skip(a as int) =~= cs.subrange(a as int, b as int) + cs.skip(b as int));
        assert(cs.skip(a as int).take(b - a) =~= cs.subrange(a as int, b as int));
        lemma_encode_concat(cs.subrange(a as int, b as int), cs.skip(b as int));
    }
    let (_, tail) = s.split_at(offs[a]);
    proof {
        assert(tail.spec_bytes() =~= encode_utf8(cs.skip(a as int)));
        lemma_encode_injective(tail@, cs.skip(a as int));
    }
    let (piece, _) = tail.split_at(offs[b] - offs[a]);
    proof {
        assert(piece.spec_bytes() =~= encode_utf8(cs.subrange(a as int, b as int)));
        lemma_encode_injective(piece@, cs.subrange(a as int, b as int));
    }
    piece.to_owned()
}

/// Whether `c` is white space.
fn white_space(c: char) -> (b: bool)
    ensures
        b == is_white_space(c),
{
    let v = c as u32;
    (0x09 <= v && v <= 0x0D) || v == 0x20 || v == 0x85 || v == 0xA0 || v == 0x1680 || (0x2000 <= v && v <= 0x200A)
        || v == 0x2028 || v == 0x2029 || v == 0x202F || v == 0x205F || v == 0x3000
}

/// The bounds, within `from..to`, of the characters of `cs` there without
/// the white space at either end.
fn trim_bounds(cs: &Vec<char>, from: usize, to: usize) -> (r: (usize, usize))
    requires
        from <= to <= cs@.len(),
    ensures
        from <= r.0 <= r.1 <= to,
        cs@.subrange(r.0 as int, r.1 as int) == trimmed(cs@.subrange(from as int, to as int)),
{
    let mut a = from;
    while a < to && white_space(cs[a])
        invariant
            from <= a <= to <= cs@.len(),
            trim_start(cs@.subrange(from as int, to as int)) == trim_start(cs@.subrange(a as int, to as int)),
        decreases to - a,
    {
        assert(cs@.subrange(a as int, to as int).drop_first() =~= cs@.subrange(a + 1, to as int));
        a = a + 1;
    }
    assert(trim_start(cs@.subrange(a as int, to as int)) == cs@.subrange(a as int, to as int));
    let mut b = to;
    while b > a && white_space(cs[b - 1])
        invariant
            from <= a <= b <= to <= cs@.len(),
            trim_end(cs@.subrange(a as int, to as int)) == trim_end(cs@.subrange(a as int, b as int)),
        decreases b - a,
    {
        assert(cs@.subrange(a as int, b as int).drop_last() =~= cs@.subrange(a as int, b - 1));
        b = b - 1;
    }
    assert(trim_end(cs@.subrange(a as int, b as int)) == cs@.subrange(a as int, b as int));
    (a, b)
}

/// The platforms a migration is for (see `platform_list`): all six for
/// `all`, else the comma-separated names, trimmed. It always succeeds.
pub fn parse_platforms(platforms: &str) -> (r: Result<Vec<String>>)
    ensures
        r matches Ok(v) && texts(v@) == platform_list(platforms@),
{
    proof {
        reveal_strlit("all");
        reveal_strlit("swift");
        reveal_strlit("kotlin");
        reveal_strlit("flutter");
        reveal_strlit("react-native");
        reveal_strlit("pwa");
        reveal_strlit("web");
    }
    let cs = chars_of(platforms);
    if cs.len() == 3 && cs[0] == 'a' && cs[1] == 'l' && cs[2] == 'l' {
        assert(platforms@ =~= "all"@);
        let v = vec![
            "swift".to_owned(),
            "kotlin".to_owned(),
            "flutter".to_owned(),
            "react-native".to_owned(),
            "pwa".to_owned(),
            "web".to_owned(),
        ];
        assert(texts(v@) =~= platform_list(platforms@));
        return Ok(v);
    }
    assert(platforms@ != "all"@) by {
        if platforms@ == "all"@ {
            assert(cs@[0] == 'a' && cs@[1] == 'l' && cs@[2] == 'l');
        }
    }
    let ghost target = comma_pieces(cs@);
    let _byte_count = platforms.as_bytes().len();
    let offs = byte_offsets(&cs);
    let mut out: Vec<String> = Vec::new();
    let ghost mut done: Seq<Seq<char>> = Seq::empty();
    let mut from: usize = 0;
    let mut k: usize = 0;
    while k < cs.len()
        invariant
            cs@ == platforms@,
            offs@.len() == cs@.len() + 1,
            forall|j: int| 0 <= j <= cs@.len() ==> #[trigger] offs@[j] == encode_utf8(cs@.take(j)).len(),
            from <= k <= cs@.len(),
            target == comma_pieces(cs@),
            done + pieces_from(cs@, from as int, k as int) == target,
            texts(out@) == done.map_values(|p: Seq<char>| trimmed(p)),
        decreases cs@.len() - k,
    {
        if cs[k] == ',' {
            let (a, b) = trim_bounds(&cs, from, k);
            let piece = substring(platforms, &offs, a, b);
            let ghost before = out@;
            proof {
                let p = cs@.subrange(from as int, k as int);
                lemma_texts_push(before, piece, done, p);
            }
            out.push(piece);
            proof {
                let p = cs@.subrange(from as int, k as int);
                assert(pieces_from(cs@, from as int, k as int) == seq![p] + pieces_from(cs@, k + 1, k + 1));
                assert(done + pieces_from(cs@, from as int, k as int) =~= done.push(p) + pieces_from(cs@, k + 1, k + 1));
                done = done.push(p);
            }
            from = k + 1;
        }
        k = k + 1;
    }
    let (a, b) = trim_bounds(&cs, from, cs.len());
    let piece = substring(platforms, &offs, a, b);
    let ghost before = out@;
    proof {
        let p = cs@.subrange(from as int, cs@.len() as int);
        lemma_texts_push(before, piece, done, p);
    }
    out.push(piece);
    proof {
        let p = cs@.subrange(from as int, cs@.len() as int);
        assert(pieces_from(cs@, from as int, k as int) == seq![p]);
        assert(done + seq![p] =~= done.push(p));
    }
    Ok(out)
}

} // verus!
