//! Operations on strings, stated over their characters.

use vstd::prelude::*;
use vstd::string::*;
use vstd::utf8::*;

verus! {

/// Whether `suffix` is what `s` ends with.
pub open spec fn has_suffix(s: Seq<char>, suffix: Seq<char>) -> bool {
    &&& suffix.len() <= s.len()
    &&& s.subrange(s.len() - suffix.len(), s.len() as int) == suffix
}

/// The pieces of `s` between the occurrences of `sep`, empty ones included.
pub open spec fn pieces(s: Seq<char>, sep: char) -> Seq<Seq<char>>
    decreases s.len(),
{
    if s.len() == 0 {
        seq![Seq::<char>::empty()]
    } else {
        let before = pieces(s.drop_last(), sep);
        if s.last() == sep {
            before.push(Seq::<char>::empty())
        } else {
            before.drop_last().push(before.last().push(s.last()))
        }
    }
}

/// The pieces of `s` between the occurrences of `sep`, without the empty ones.
pub open spec fn segments(s: Seq<char>, sep: char) -> Seq<Seq<char>> {
    pieces(s, sep).filter(|piece: Seq<char>| piece.len() > 0)
}

/// The characters of each of some strings.
pub open spec fn texts(strings: Seq<String>) -> Seq<Seq<char>> {
    strings.map_values(|s: String| s@)
}

/// The order of byte strings: by the first byte that differs, a proper prefix first.
pub open spec fn bytes_before(x: Seq<u8>, y: Seq<u8>) -> bool
    decreases x.len(),
{
    if y.len() == 0 {
        false
    } else if x.len() == 0 {
        true
    } else if x[0] != y[0] {
        x[0] < y[0]
    } else {
        bytes_before(x.drop_first(), y.drop_first())
    }
}

/// The order of strings, which is that of their UTF-8 bytes.
pub open spec fn text_before(a: Seq<char>, b: Seq<char>) -> bool {
    bytes_before(encode_utf8(a), encode_utf8(b))
}

/// How one string stands to another in the order of strings.
#[derive(Clone, Copy, Debug, PartialEq, Eq, Structural)]
pub enum Position {
    Before,
    Same,
    After,
}

/// Where `a` stands to `b` in the order of strings.
pub fn position(a: &str, b: &str) -> (r: Position)
    ensures
        r == Position::Before <==> text_before(a@, b@),
        r == Position::Same <==> a@ == b@,
        r == Position::After <==> text_before(b@, a@),
{
    let x = a.as_bytes();
    let y = b.as_bytes();
    proof {
        encode_utf8_decode_utf8(a@);
        encode_utf8_decode_utf8(b@);
        lemma_order_is_strict(x@, y@);
        lemma_order_is_strict(x@, x@);
        assert(x@.skip(0) =~= x@);
        assert(y@.skip(0) =~= y@);
    }
    let mut i: usize = 0;
    while i < x.len() && i < y.len()
        invariant
            i <= x@.len(),
            i <= y@.len(),
            x@ == encode_utf8(a@),
            y@ == encode_utf8(b@),
            x@.take(i as int) == y@.take(i as int),
            bytes_before(x@, y@) == bytes_before(x@.skip(i as int), y@.skip(i as int)),
            bytes_before(y@, x@) == bytes_before(y@.skip(i as int), x@.skip(i as int)),
            x@ == y@ ==> !bytes_before(x@, y@) && !bytes_before(y@, x@),
            a@ == b@ <==> x@ == y@,
        decreases x@.len() - i,
    {
        assert(x@.skip(i as int).drop_first() =~= x@.skip(i + 1));
        assert(y@.skip(i as int).drop_first() =~= y@.skip(i + 1));
        if x[i] < y[i] {
            return Position::Before;
        }
        if y[i] < x[i] {
            return Position::After;
        }
        assert(x@.take(i + 1) =~= x@.take(i as int).push(x@[i as int]));
        assert(y@.take(i + 1) =~= y@.take(i as int).push(y@[i as int]));
        i += 1;
    }
    assert(x@.take(x@.len() as int) =~= x@);
    assert(y@.take(y@.len() as int) =~= y@);
    if i < y.len() {
        Position::Before
    } else if i < x.len() {
        Position::After
    } else {
        Position::Same
    }
}

/// Every text has at least one piece.
pub proof fn lemma_pieces_not_empty(s: Seq<char>, sep: char)
    ensures
        pieces(s, sep).len() > 0,
    decreases s.len(),
{
    if s.len() > 0 {
        lemma_pieces_not_empty(s.drop_last(), sep);
    }
}

/// A text without the separator is one piece.
pub proof fn lemma_one_piece(s: Seq<char>, sep: char)
    requires
        !s.contains(sep),
    ensures
        pieces(s, sep) == seq![s],
    decreases s.len(),
{
    if s.len() > 0 {
        let rest = s.drop_last();
        assert(s.contains(s.last()));
        assert forall|i: int| 0 <= i < rest.len() implies rest[i] != sep by {
            assert(s.contains(s[i]));
        }
        lemma_one_piece(rest, sep);
        assert(rest.push(s.last()) =~= s);
        assert(pieces(s, sep) =~= seq![s]);
    } else {
        assert(s =~= Seq::empty());
    }
}

/// The pieces of two texts with a separator between them are those of the one and those of the
/// other.
pub proof fn lemma_pieces_joined(a: Seq<char>, b: Seq<char>, sep: char)
    ensures
        pieces(a.push(sep) + b, sep) == pieces(a, sep) + pieces(b, sep),
    decreases b.len(),
{
    let whole = a.push(sep) + b;
    if b.len() == 0 {
        assert(whole.drop_last() =~= a);
        assert(pieces(whole, sep) =~= pieces(a, sep) + pieces(b, sep));
    } else {
        lemma_pieces_joined(a, b.drop_last(), sep);
        lemma_pieces_not_empty(b.drop_last(), sep);
        assert(whole.drop_last() =~= a.push(sep) + b.drop_last());
        assert(whole.last() == b.last());
        assert(pieces(whole, sep) =~= pieces(a, sep) + pieces(b, sep));
    }
}

/// What is added to a text without a separator is added to its last piece.
pub proof fn lemma_last_piece_grows(s: Seq<char>, t: Seq<char>, sep: char)
    requires
        !t.contains(sep),
    ensures
        pieces(s + t, sep).last() == pieces(s, sep).last() + t,
    decreases t.len(),
{
    lemma_pieces_not_empty(s, sep);
    if t.len() == 0 {
        assert(s + t =~= s);
        assert(pieces(s, sep).last() + t =~= pieces(s, sep).last());
    } else {
        let rest = t.drop_last();
        assert(t.contains(t.last()));
        assert forall|i: int| 0 <= i < rest.len() implies rest[i] != sep by {
            assert(t.contains(t[i]));
        }
        lemma_last_piece_grows(s, rest, sep);
        assert((s + t).drop_last() =~= s + rest);
        assert(pieces(s + t, sep).last() =~= pieces(s, sep).last() + t);
    }
}

/// The first piece of a text that has a separator does not depend on what is added to the text.
pub proof fn lemma_first_piece_stays(s: Seq<char>, t: Seq<char>, sep: char)
    requires
        s.contains(sep),
    ensures
        pieces(s + t, sep).first() == pieces(s, sep).first(),
{
    let i = choose|i: int| 0 <= i < s.len() && s[i] == sep;
    let left = s.take(i);
    let right = s.skip(i + 1);
    lemma_pieces_not_empty(left, sep);
    lemma_pieces_joined(left, right, sep);
    lemma_pieces_joined(left, right + t, sep);
    assert(s =~= left.push(sep) + right);
    assert(s + t =~= left.push(sep) + (right + t));
}

/// The first piece of a text is what stands before the first separator.
pub proof fn lemma_first_piece(s: Seq<char>, sep: char)
    ensures
        pieces(s, sep).first().len() <= s.len(),
        s.take(pieces(s, sep).first().len() as int) == pieces(s, sep).first(),
        pieces(s, sep).first().len() < s.len() ==> s[pieces(s, sep).first().len() as int] == sep,
{
    if s.contains(sep) {
        let i = s.index_of_first(sep)->0;
        s.index_of_first_ensures(sep);
        let left = s.take(i);
        assert forall|j: int| 0 <= j < left.len() implies left[j] != sep by {
            assert(s[j] != sep);
        }
        lemma_one_piece(left, sep);
        lemma_pieces_joined(left, s.skip(i + 1), sep);
        assert(s =~= left.push(sep) + s.skip(i + 1));
    } else {
        lemma_one_piece(s, sep);
        assert(s.take(s.len() as int) =~= s);
    }
}

/// No piece of a text holds the separator.
pub proof fn lemma_pieces_have_no_separator(s: Seq<char>, sep: char)
    ensures
        pieces(s, sep).len() > 0,
        forall|i: int, j: int|
            0 <= i < pieces(s, sep).len() && 0 <= j < pieces(s, sep)[i].len()
                ==> #[trigger] pieces(s, sep)[i][j] != sep,
    decreases s.len(),
{
    if s.len() > 0 {
        lemma_pieces_have_no_separator(s.drop_last(), sep);
        let before = pieces(s.drop_last(), sep);
        let all = pieces(s, sep);
        assert forall|i: int, j: int| 0 <= i < all.len() && 0 <= j < all[i].len() implies
            #[trigger] all[i][j] != sep by {
            if s.last() == sep {
                if i < before.len() {
                    assert(before[i][j] != sep);
                }
            } else if i < before.len() - 1 {
                assert(before[i][j] != sep);
            } else if j < before.last().len() {
                assert(before[before.len() - 1][j] != sep);
            }
        }
    }
}

/// The segments of a text are not empty and do not hold the separator.
pub proof fn lemma_segments(s: Seq<char>, sep: char)
    ensures
        forall|i: int|
            0 <= i < segments(s, sep).len() ==> (#[trigger] segments(s, sep)[i]).len() > 0
                && !segments(s, sep)[i].contains(sep),
{
    let keep = |piece: Seq<char>| piece.len() > 0;
    lemma_pieces_have_no_separator(s, sep);
    assert forall|i: int| 0 <= i < segments(s, sep).len() implies (#[trigger] segments(
        s,
        sep,
    )[i]).len() > 0 && !segments(s, sep)[i].contains(sep) by {
        let piece = segments(s, sep)[i];
        pieces(s, sep).lemma_filter_pred(keep, i);
        assert(pieces(s, sep).filter(keep).contains(piece));
        pieces(s, sep).lemma_filter_contains_rev(keep, piece);
        let k = choose|k: int| 0 <= k < pieces(s, sep).len() && pieces(s, sep)[k] == piece;
        assert forall|j: int| 0 <= j < piece.len() implies piece[j] != sep by {
            assert(pieces(s, sep)[k][j] != sep);
        }
    }
}

/// The order of byte strings is strict: of two, at most one comes before the other.
pub proof fn lemma_order_is_strict(x: Seq<u8>, y: Seq<u8>)
    ensures
        !(bytes_before(x, y) && bytes_before(y, x)),
    decreases x.len(),
{
    if x.len() > 0 && y.len() > 0 {
        lemma_order_is_strict(x.drop_first(), y.drop_first());
    }
}

/// The order of byte strings is transitive.
pub proof fn lemma_order_is_transitive(x: Seq<u8>, y: Seq<u8>, z: Seq<u8>)
    requires
        bytes_before(x, y),
        bytes_before(y, z),
    ensures
        bytes_before(x, z),
    decreases x.len(),
{
    if x.len() > 0 && y.len() > 0 && z.len() > 0 && x[0] == y[0] && y[0] == z[0] {
        lemma_order_is_transitive(x.drop_first(), y.drop_first(), z.drop_first());
    }
}

/// The order of strings is total: of two different ones, one comes before the other.
pub proof fn lemma_order_is_total(a: Seq<char>, b: Seq<char>)
    requires
        a != b,
    ensures
        text_before(a, b) || text_before(b, a),
{
    encode_utf8_decode_utf8(a);
    encode_utf8_decode_utf8(b);
    lemma_bytes_order_is_total(encode_utf8(a), encode_utf8(b));
}

/// The order of byte strings is total.
proof fn lemma_bytes_order_is_total(x: Seq<u8>, y: Seq<u8>)
    requires
        x != y,
    ensures
        bytes_before(x, y) || bytes_before(y, x),
    decreases x.len(),
{
    if x.len() > 0 && y.len() > 0 {
        if x[0] == y[0] {
            assert(x =~= seq![x[0]] + x.drop_first());
            assert(y =~= seq![y[0]] + y.drop_first());
            lemma_bytes_order_is_total(x.drop_first(), y.drop_first());
        }
    } else if x.len() == 0 && y.len() == 0 {
        assert(x =~= y);
    }
}

/// Whether two strings hold the same characters.
pub fn same_text(a: &str, b: &str) -> (r: bool)
    ensures
        r == (a@ == b@),
{
    match position(a, b) {
        Position::Same => true,
        _ => false,
    }
}

/// Whether `s` ends with `suffix`.
pub fn ends_with(s: &str, suffix: &str) -> (r: bool)
    ensures
        r == has_suffix(s@, suffix@),
{
    let n: usize = s.unicode_len();
    let m: usize = suffix.unicode_len();
    n >= m && same_text(s.substring_char(n - m, n), suffix)
}

/// The non-empty pieces of `s` between the occurrences of `sep`.
pub fn split_segments(s: &str, sep: char) -> (r: Vec<String>)
    ensures
        texts(r@) == segments(s@, sep),
{
    let mut out: Vec<String> = Vec::new();
    let mut start: usize = 0;
    let mut i: usize = 0;
    let n: usize = s.unicode_len();
    let ghost keep = |piece: Seq<char>| piece.len() > 0;
    proof {
        assert(s@.take(0) =~= Seq::<char>::empty());
        assert(pieces(s@.take(0), sep).drop_last() =~= Seq::empty());
        reveal(Seq::filter);
    }
    for c in it: s.chars()
        invariant
            it.seq() == s@,
            i == it.index(),
            n == s@.len(),
            start <= i <= n,
            keep == |piece: Seq<char>| piece.len() > 0,
            pieces(s@.take(i as int), sep).len() > 0,
            pieces(s@.take(i as int), sep).last() == s@.subrange(start as int, i as int),
            texts(out@) == pieces(s@.take(i as int), sep).drop_last().filter(keep),
    {
        let ghost before = pieces(s@.take(i as int), sep);
        proof {
            assert(s@.take(i + 1).drop_last() =~= s@.take(i as int));
            assert(s@.take(i + 1).last() == c);
            reveal(Seq::filter);
        }
        if c == sep {
            proof {
                assert(pieces(s@.take(i + 1), sep).drop_last() =~= before);
            }
            if start < i {
                out.push(s.substring_char(start, i).to_owned());
                assert(texts(out@) =~= before.drop_last().filter(keep).push(before.last()));
            }
            start = i + 1;
        } else {
            proof {
                assert(pieces(s@.take(i + 1), sep).drop_last() =~= before.drop_last());
                assert(s@.subrange(start as int, i + 1) =~= s@.subrange(start as int, i as int).push(c));
            }
        }
        i += 1;
    }
    proof {
        assert(s@.take(n as int) =~= s@);
        reveal(Seq::filter);
    }
    if start < n {
        out.push(s.substring_char(start, n).to_owned());
    }
    assert(texts(out@) =~= segments(s@, sep));
    out
}

/// A text ends with what was put behind another text.
pub proof fn law_added_text_is_suffix(s: Seq<char>, t: Seq<char>)
    ensures
        has_suffix(s + t, t),
{
    assert((s + t).subrange(s.len() as int, (s + t).len() as int) =~= t);
}

/// A text that ends with another is some text with that other behind it.
pub proof fn law_suffix_stands_behind(s: Seq<char>, t: Seq<char>)
    requires
        has_suffix(s, t),
    ensures
        exists|a: Seq<char>| s == #[trigger] (a + t),
{
    let a = s.take(s.len() - t.len());
    assert(s =~= a + t);
}

/// What stands before and behind a separator has its segments by itself, and a text without a
/// separator is its own only segment unless it is empty.
pub proof fn law_segments_are_what_is_between(a: Seq<char>, b: Seq<char>, sep: char)
    ensures
        segments(a.push(sep) + b, sep) == segments(a, sep) + segments(b, sep),
        !a.contains(sep) && a.len() > 0 ==> segments(a, sep) == seq![a],
        a.len() == 0 ==> segments(a, sep) == Seq::<Seq<char>>::empty(),
{
    let keep = |piece: Seq<char>| piece.len() > 0;
    lemma_pieces_joined(a, b, sep);
    Seq::filter_distributes_over_add(pieces(a, sep), pieces(b, sep), keep);
    if !a.contains(sep) {
        lemma_one_piece(a, sep);
        assert(seq![a].drop_last() =~= Seq::empty());
        reveal_with_fuel(Seq::filter, 2);
        assert(a.len() > 0 ==> segments(a, sep) =~= seq![a]);
        assert(a.len() == 0 ==> segments(a, sep) =~= Seq::empty());
    }
}

/// Of two strings that go apart at a byte, that with the smaller byte comes before the other.
pub proof fn law_smaller_byte_comes_before(
    a: Seq<char>,
    b: Seq<char>,
    common: Seq<u8>,
    x: u8,
    y: u8,
    behind_x: Seq<u8>,
    behind_y: Seq<u8>,
)
    requires
        encode_utf8(a) == common.push(x) + behind_x,
        encode_utf8(b) == common.push(y) + behind_y,
        x < y,
    ensures
        text_before(a, b),
        !text_before(b, a),
{
    lemma_first_difference(common, x, y, behind_x, behind_y);
    lemma_order_is_strict(encode_utf8(a), encode_utf8(b));
}

/// The first difference decides on the order of byte strings.
proof fn lemma_first_difference(
    common: Seq<u8>,
    x: u8,
    y: u8,
    behind_x: Seq<u8>,
    behind_y: Seq<u8>,
)
    requires
        x < y,
    ensures
        bytes_before(common.push(x) + behind_x, common.push(y) + behind_y),
    decreases common.len(),
{
    let a = common.push(x) + behind_x;
    let b = common.push(y) + behind_y;
    if common.len() > 0 {
        let rest = common.drop_first();
        assert(a.drop_first() =~= rest.push(x) + behind_x);
        assert(b.drop_first() =~= rest.push(y) + behind_y);
        lemma_first_difference(rest, x, y, behind_x, behind_y);
    }
}

/// A string comes before every string that goes on where it ends, and never before itself.
pub proof fn law_shorter_string_comes_before(a: Seq<char>, b: Seq<char>, more: Seq<u8>)
    requires
        encode_utf8(b) == encode_utf8(a) + more,
    ensures
        text_before(a, b) == (more.len() > 0),
        !text_before(b, a),
{
    lemma_prefix(encode_utf8(a), more);
    lemma_order_is_strict(encode_utf8(a), encode_utf8(b));
    if more.len() == 0 {
        assert(encode_utf8(b) =~= encode_utf8(a));
        lemma_order_is_strict(encode_utf8(a), encode_utf8(a));
    }
}

/// A byte string comes before what goes on where it ends.
proof fn lemma_prefix(x: Seq<u8>, more: Seq<u8>)
    ensures
        more.len() > 0 ==> bytes_before(x, x + more),
    decreases x.len(),
{
    if x.len() > 0 {
        lemma_prefix(x.drop_first(), more);
        assert((x + more).drop_first() =~= x.drop_first() + more);
    }
}

/// The characters of some strings are those of each, in the order of the strings.
pub proof fn law_texts_are_the_characters_of_each(strings: Seq<String>)
    ensures
        texts(strings).len() == strings.len(),
        forall|i: int| 0 <= i < strings.len() ==> texts(strings)[i] == (#[trigger] strings[i])@,
{
}

} // verus!
