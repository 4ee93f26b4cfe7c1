//! Byte-level text utilities.
//!
//! All parsing in this crate works on UTF-8 bytes: splitting and trimming
//! happen only at ASCII positions, which always fall on character
//! boundaries, and the pieces are turned back into `String`s at the edges.

use vstd::prelude::*;
use vstd::string::StringSliceAdditionalSpecFns;

verus! {

/// The UTF-8 bytes of a string, the form its contracts are stated over.
pub open spec fn string_bytes(s: &String) -> Seq<u8> {
    vstd::utf8::encode_utf8(s@)
}

/// The UTF-8 bytes of a string slice.
pub open spec fn str_bytes(s: &str) -> Seq<u8> {
    s.spec_bytes()
}

/// Relies on std's String::from_utf8: succeeds exactly on valid UTF-8 and
/// then returns the string with precisely those bytes.
#[verifier::external_body]
pub(crate) fn string_from_utf8(v: Vec<u8>) -> (r: Result<String, String>)
    ensures
        r is Ok <==> vstd::utf8::valid_utf8(v@),
        r matches Ok(s) ==> string_bytes(&s) == v@,
{
    String::from_utf8(v).map_err(|e| e.to_string())
}

/// ASCII whitespace, the delimiters this crate ever trims.
pub open spec fn is_ws(b: u8) -> bool {
    b == 32 || b == 9 || b == 13 || b == 10
}

/// The sequence with leading and trailing ASCII whitespace removed.
pub open spec fn spec_trim(s: Seq<u8>) -> Seq<u8>
    decreases s.len(),
{
    if s.len() == 0 {
        s
    } else if is_ws(s[0]) {
        spec_trim(s.drop_first())
    } else if is_ws(s.last()) {
        spec_trim(s.drop_last())
    } else {
        s
    }
}

/// Byte-wise equality of two byte strings.
pub fn eq_bytes(a: &[u8], b: &[u8]) -> (r: bool)
    ensures
        r <==> a@ =~= b@,
{
    if a.len() != b.len() {
        return false;
    }
    let n = a.len();
    let mut i: usize = 0;
    while i < n
        invariant
            i <= n,
            n == a@.len() == b@.len(),
            forall|j: int| 0 <= j < i ==> a@[j] == b@[j],
        decreases n - i,
    {
        if a[i] != b[i] {
            return false;
        }
        i += 1;
    }
    assert(a@ =~= b@);
    true
}

/// Whether `p` is a prefix of `s`.
pub fn starts_with_bytes(s: &[u8], p: &[u8]) -> (r: bool)
    ensures
        r <==> p@.is_prefix_of(s@),
{
    if s.len() < p.len() {
        assert(!p@.is_prefix_of(s@));
        return false;
    }
    let n = p.len();
    let mut i: usize = 0;
    while i < n
        invariant
            i <= n,
            n == p@.len(),
            n <= s@.len(),
            forall|j: int| 0 <= j < i ==> s@[j] == p@[j],
        decreases n - i,
    {
        if s[i] != p[i] {
            assert(!p@.is_prefix_of(s@));
            return false;
        }
        i += 1;
    }
    assert(p@ =~= s@.subrange(0, n as int));
    true
}

/// Whether `s` ends with `p`.
pub fn ends_with_bytes(s: &[u8], p: &[u8]) -> (r: bool)
    ensures
        r <==> p@.is_suffix_of(s@),
{
    if s.len() < p.len() {
        assert(!p@.is_suffix_of(s@));
        return false;
    }
    let n = p.len();
    let off = s.len() - n;
    let mut i: usize = 0;
    while i < n
        invariant
            i <= n,
            n == p@.len(),
            off + n == s@.len(),
            s@.len() <= usize::MAX,
            forall|j: int| 0 <= j < i ==> s@[off + j] == p@[j],
        decreases n - i,
    {
        proof {
            assert(off + i < s@.len());
        }
        if s[off + i] != p[i] {
            assert(!p@.is_suffix_of(s@));
            return false;
        }
        i += 1;
    }
    assert(p@ =~= s@.subrange(off as int, s@.len() as int));
    true
}

/// Character-wise equality of two string slices, decided on their bytes:
/// UTF-8 encoding is injective, so byte equality settles it.
pub fn eq_str(a: &str, b: &str) -> (r: bool)
    ensures
        r <==> a@ =~= b@,
{
    let r = eq_bytes(a.as_bytes(), b.as_bytes());
    proof {
        if r {
            vstd::utf8::encode_utf8_decode_utf8(a@);
            vstd::utf8::encode_utf8_decode_utf8(b@);
            assert(a@ =~= b@);
        } else {
            if a@ =~= b@ {
                assert(str_bytes(a) =~= str_bytes(b));
            }
        }
    }
    r
}

/// Copy of a subrange of a byte string.
pub fn sub_bytes(s: &[u8], from: usize, to: usize) -> (r: Vec<u8>)
    requires
        from <= to <= s@.len(),
    ensures
        r@ == s@.subrange(from as int, to as int),
{
    let mut r: Vec<u8> = Vec::new();
    let mut i: usize = from;
    while i < to
        invariant
            from <= i <= to <= s@.len(),
            r@ == s@.subrange(from as int, i as int),
        decreases to - i,
    {
        r.push(s[i]);
        assert(r@ =~= s@.subrange(from as int, i + 1 as int));
        i += 1;
    }
    r
}

/// Leading and trailing ASCII whitespace removed.
pub fn trim_bytes(s: &[u8]) -> (r: Vec<u8>)
    ensures
        r@ == spec_trim(s@),
{
    let mut from: usize = 0;
    let mut to: usize = s.len();
    proof {
        assert(s@.subrange(0, s@.len() as int) =~= s@);
    }
    while from < to && is_ws_byte(s[from])
        invariant
            from <= to <= s@.len(),
            spec_trim(s@) == spec_trim(s@.subrange(from as int, to as int)),
            to == s@.len(),
        decreases to - from,
    {
        proof {
            lemma_trim_drop_first(s@.subrange(from as int, to as int));
            assert(s@.subrange(from as int, to as int).drop_first() =~= s@.subrange(
                from + 1 as int,
                to as int,
            ));
        }
        from += 1;
    }
    while from < to && is_ws_byte(s[to - 1])
        invariant
            from <= to <= s@.len(),
            spec_trim(s@) == spec_trim(s@.subrange(from as int, to as int)),
            from < to ==> !is_ws(s@[from as int]),
        decreases to - from,
    {
        proof {
            lemma_trim_drop_last(s@.subrange(from as int, to as int));
            assert(s@.subrange(from as int, to as int).drop_last() =~= s@.subrange(
                from as int,
                to - 1 as int,
            ));
        }
        to -= 1;
    }
    proof {
        lemma_trim_fixed(s@.subrange(from as int, to as int));
    }
    sub_bytes(s, from, to)
}

/// Executable mirror of `is_ws`.
pub fn is_ws_byte(b: u8) -> (r: bool)
    ensures
        r == is_ws(b),
{
    b == 32 || b == 9 || b == 13 || b == 10
}

proof fn lemma_trim_drop_first(s: Seq<u8>)
    requires
        s.len() > 0,
        is_ws(s[0]),
    ensures
        spec_trim(s) == spec_trim(s.drop_first()),
{
}

proof fn lemma_trim_drop_last(s: Seq<u8>)
    requires
        s.len() > 0,
        !is_ws(s[0]),
        is_ws(s.last()),
    ensures
        spec_trim(s) == spec_trim(s.drop_last()),
{
}

proof fn lemma_trim_fixed(s: Seq<u8>)
    requires
        s.len() == 0 || (!is_ws(s[0]) && !is_ws(s.last())),
    ensures
        spec_trim(s) == s,
{
}

/// The parts interleaved with the separator: the inverse image of a split.
pub open spec fn join_with(parts: Seq<Seq<u8>>, sep: u8) -> Seq<u8>
    decreases parts.len(),
{
    if parts.len() == 0 {
        Seq::empty()
    } else if parts.len() == 1 {
        parts[0]
    } else {
        parts[0] + seq![sep] + join_with(parts.drop_first(), sep)
    }
}

/// The byte sequences of a sequence of byte vectors.
pub open spec fn views_of(r: Seq<Vec<u8>>) -> Seq<Seq<u8>> {
    Seq::new(r.len(), |i: int| r[i]@)
}

/// Split at every occurrence of `sep`.  The result is pinned down by its
/// join: the pieces contain no separator and joining them with the
/// separator restores the input.
pub fn split_bytes(s: &[u8], sep: u8) -> (r: Vec<Vec<u8>>)
    ensures
        r@.len() >= 1,
        join_with(views_of(r@), sep) == s@,
        forall|i: int| 0 <= i < r@.len() ==> !(#[trigger] r@[i]@).contains(sep),
{
    let mut r: Vec<Vec<u8>> = Vec::new();
    let mut cur: Vec<u8> = Vec::new();
    let n = s.len();
    let mut i: usize = 0;
    while i < n
        invariant
            i <= n,
            n == s@.len(),
            join_with(views_of(r@).push(cur@), sep) == s@.subrange(0, i as int),
            forall|k: int| 0 <= k < r@.len() ==> !(#[trigger] r@[k]@).contains(sep),
            !cur@.contains(sep),
        decreases n - i,
    {
        let b = s[i];
        let ghost prev = r@;
        let ghost prev_cur = cur@;
        if b == sep {
            proof {
                lemma_join_push_piece(views_of(prev), prev_cur, sep);
            }
            r.push(cur);
            cur = Vec::new();
            proof {
                assert(views_of(r@).push(cur@) =~= views_of(prev).push(prev_cur).push(
                    Seq::empty(),
                ));
                assert(join_with(views_of(r@).push(cur@), sep) =~= s@.subrange(0, i + 1 as int));
            }
        } else {
            proof {
                lemma_join_last_extend(views_of(prev), prev_cur, b, sep);
            }
            cur.push(b);
            proof {
                assert(views_of(r@).push(cur@) =~= views_of(prev).push(prev_cur.push(b)));
                assert(s@.subrange(0, i as int).push(b) =~= s@.subrange(0, i + 1 as int));
            }
        }
        i += 1;
    }
    proof {
        assert(s@.subrange(0, n as int) =~= s@);
    }
    let ghost prev = r@;
    let ghost prev_cur = cur@;
    r.push(cur);
    proof {
        assert(views_of(r@) =~= views_of(prev).push(prev_cur));
    }
    r
}

/// Appending a finished piece and starting an empty one extends the join by
/// the separator.
proof fn lemma_join_push_piece(parts: Seq<Seq<u8>>, cur: Seq<u8>, sep: u8)
    ensures
        join_with(parts.push(cur).push(Seq::empty()), sep) == join_with(parts.push(cur), sep)
            + seq![sep],
    decreases parts.len(),
{
    if parts.len() == 0 {
        assert(parts.push(cur).push(Seq::<u8>::empty()).drop_first() =~= seq![
            Seq::<u8>::empty(),
        ]);
        assert(join_with(seq![Seq::<u8>::empty()], sep) == Seq::<u8>::empty());
        assert(parts.push(cur)[0] == cur);
        assert(join_with(parts.push(cur), sep) == cur);
        assert(join_with(parts.push(cur).push(Seq::empty()), sep) =~= cur + seq![sep]);
    } else {
        lemma_join_push_piece(parts.drop_first(), cur, sep);
        assert(parts.push(cur).push(Seq::<u8>::empty()).drop_first() =~= parts.drop_first().push(
            cur,
        ).push(Seq::empty()));
        assert(parts.push(cur).drop_first() =~= parts.drop_first().push(cur));
        assert(join_with(parts.push(cur).push(Seq::empty()), sep) =~= join_with(
            parts.push(cur),
            sep,
        ) + seq![sep]);
    }
}

/// Extending the piece under construction extends the join by one byte.
proof fn lemma_join_last_extend(parts: Seq<Seq<u8>>, cur: Seq<u8>, b: u8, sep: u8)
    ensures
        join_with(parts.push(cur.push(b)), sep) == join_with(parts.push(cur), sep).push(b),
    decreases parts.len(),
{
    if parts.len() == 0 {
        assert(join_with(parts.push(cur.push(b)), sep) =~= join_with(parts.push(cur), sep).push(
            b,
        ));
    } else {
        lemma_join_last_extend(parts.drop_first(), cur, b, sep);
        assert(parts.push(cur.push(b)).drop_first() =~= parts.drop_first().push(cur.push(b)));
        assert(parts.push(cur).drop_first() =~= parts.drop_first().push(cur));
        assert(join_with(parts.push(cur.push(b)), sep) =~= join_with(parts.push(cur), sep).push(
            b,
        ));
    }
}

/// Join pieces with a separator byte: the executable inverse of a split.
pub fn join_bytes(parts: &Vec<Vec<u8>>, sep: u8) -> (r: Vec<u8>)
    ensures
        r@ == join_with(views_of(parts@), sep),
{
    let mut r: Vec<u8> = Vec::new();
    let n = parts.len();
    if n == 0 {
        proof {
            assert(views_of(parts@) =~= Seq::<Seq<u8>>::empty());
        }
        return r;
    }
    let mut i: usize = 0;
    while i < n
        invariant
            1 <= n == parts@.len(),
            i <= n,
            r@ == join_with(views_of(parts@.take(i as int)), sep),
        decreases n - i,
    {
        let ghost done = parts@.take(i as int);
        if i > 0 {
            r.push(sep);
        }
        let mut piece: Vec<u8> = Vec::new();
        piece.extend_from_slice(parts[i].as_slice());
        r.append(&mut piece);
        proof {
            lemma_join_take_step(parts@, sep, i as int);
            assert(views_of(parts@.take(i + 1 as int)) =~= views_of(parts@.take(i as int)).push(
                parts@[i as int]@,
            ));
            if i > 0 {
                assert(r@ =~= join_with(views_of(parts@.take(i as int)), sep) + seq![sep]
                    + parts@[i as int]@);
            } else {
                assert(views_of(parts@.take(0int)) =~= Seq::<Seq<u8>>::empty());
                assert(r@ =~= parts@[0int]@);
            }
        }
        i += 1;
    }
    proof {
        assert(parts@.take(n as int) =~= parts@);
    }
    r
}

/// Joining one more piece appends a separator and the piece (or is the
/// piece alone when nothing came before).
proof fn lemma_join_append(parts: Seq<Seq<u8>>, piece: Seq<u8>, sep: u8)
    ensures
        parts.len() == 0 ==> join_with(parts.push(piece), sep) == piece,
        parts.len() > 0 ==> join_with(parts.push(piece), sep) == join_with(parts, sep) + seq![sep]
            + piece,
    decreases parts.len(),
{
    if parts.len() == 0 {
        assert(parts.push(piece)[0] == piece);
    } else if parts.len() == 1 {
        assert(parts.push(piece).drop_first() =~= seq![piece]);
        assert(join_with(seq![piece], sep) == piece);
        assert(join_with(parts.push(piece), sep) =~= parts[0] + seq![sep] + piece);
        assert(join_with(parts, sep) == parts[0]);
    } else {
        lemma_join_append(parts.drop_first(), piece, sep);
        assert(parts.push(piece).drop_first() =~= parts.drop_first().push(piece));
        assert(join_with(parts.push(piece), sep) =~= join_with(parts, sep) + seq![sep] + piece);
    }
}

proof fn lemma_join_take_step(parts: Seq<Vec<u8>>, sep: u8, i: int)
    requires
        0 <= i < parts.len(),
    ensures
        i == 0 ==> join_with(views_of(parts.take(1)), sep) == parts[0]@,
        i > 0 ==> join_with(views_of(parts.take(i + 1)), sep) == join_with(
            views_of(parts.take(i)),
            sep,
        ) + seq![sep] + parts[i]@,
{
    lemma_join_append(views_of(parts.take(i)), parts[i]@, sep);
    assert(views_of(parts.take(i + 1)) =~= views_of(parts.take(i)).push(parts[i]@));
    if i == 0 {
        assert(views_of(parts.take(0)) =~= Seq::<Seq<u8>>::empty());
    }
}

/// A line with a trailing carriage return loses it.
pub open spec fn strip_cr(l: Seq<u8>) -> Seq<u8> {
    if l.len() > 0 && l.last() == 13 {
        l.drop_last()
    } else {
        l
    }
}

/// The text's lines: the newline split, a trailing empty piece dropped,
/// and a trailing carriage return removed from each line.
pub open spec fn spec_lines(s: Seq<u8>) -> Seq<Seq<u8>> {
    let parts = spec_split(s, 10);
    let kept = if parts.len() > 0 && parts.last().len() == 0 {
        parts.drop_last()
    } else {
        parts
    };
    Seq::new(kept.len(), |i: int| strip_cr(kept[i]))
}

/// The text split into lines, exactly as `spec_lines` says.
pub fn lines_bytes(s: &[u8]) -> (r: Vec<Vec<u8>>)
    ensures
        views_of(r@) == spec_lines(s@),
        forall|i: int| 0 <= i < r@.len() ==> !(#[trigger] r@[i]@).contains(10u8),
{
    let mut parts = split_bytes(s, 10);
    proof {
        lemma_split_unique(views_of(parts@), s@, 10);
    }
    let ghost split_views = views_of(parts@);
    if parts.len() > 0 && parts[parts.len() - 1].len() == 0 {
        let ghost before_pop = parts@;
        let _ = parts.pop();
        proof {
            assert(views_of(parts@) =~~= split_views.drop_last());
        }
    }
    let ghost kept = views_of(parts@);
    let n = parts.len();
    let mut r: Vec<Vec<u8>> = Vec::new();
    let mut i: usize = 0;
    while i < n
        invariant
            i <= n,
            n == parts@.len(),
            kept == views_of(parts@),
            forall|k: int| 0 <= k < n ==> !(#[trigger] parts@[k]@).contains(10u8),
            r@.len() == i,
            forall|k: int| 0 <= k < i ==> #[trigger] r@[k]@ == strip_cr(kept[k]),
            forall|k: int| 0 <= k < i ==> !(#[trigger] r@[k]@).contains(10u8),
        decreases n - i,
    {
        let line = &parts[i];
        if line.len() > 0 && line[line.len() - 1] == 13 {
            let trimmed = sub_bytes(line.as_slice(), 0, line.len() - 1);
            proof {
                assert(trimmed@ =~= parts@[i as int]@.drop_last());
                assert(forall|j: int|
                    0 <= j < trimmed@.len() ==> trimmed@[j] == parts@[i as int]@[j]);
            }
            r.push(trimmed);
        } else {
            let mut copy: Vec<u8> = Vec::new();
            copy.extend_from_slice(line.as_slice());
            r.push(copy);
        }
        i += 1;
    }
    proof {
        assert(views_of(r@) =~~= spec_lines(s@));
    }
    r
}

/// Relies on std's String::from_utf8_lossy: on valid UTF-8 input the result
/// holds exactly the input bytes.
#[verifier::external_body]
pub(crate) fn bytes_to_string_lossy(v: &[u8]) -> (r: String)
    ensures
        vstd::utf8::valid_utf8(v@) ==> string_bytes(&r) == v@,
        v@.len() == 0 <==> string_bytes(&r).len() == 0,
{
    String::from_utf8_lossy(v).into_owned()
}

/// Whether `n` occurs as a contiguous run inside `h`.
pub open spec fn has_sub(h: Seq<u8>, n: Seq<u8>) -> bool {
    exists|i: int| 0 <= i && i + n.len() <= h.len() && #[trigger] h.subrange(i, i + n.len()) == n
}

/// Substring search, byte-wise.
pub fn contains_bytes(hay: &[u8], needle: &[u8]) -> (r: bool)
    ensures
        r == has_sub(hay@, needle@),
{
    let hn = hay.len();
    let nn = needle.len();
    if nn > hn {
        proof {
            assert(!has_sub(hay@, needle@));
        }
        return false;
    }
    let mut i: usize = 0;
    while i <= hn - nn
        invariant
            nn <= hn == hay@.len(),
            nn == needle@.len(),
            i <= hn - nn + 1,
            forall|j: int| 0 <= j < i ==> #[trigger] hay@.subrange(j, j + nn) != needle@,
        decreases hn - nn + 1 - i,
    {
        let tail = &hay[i..hn];
        if starts_with_bytes(tail, needle) {
            proof {
                assert(hay@.subrange(i as int, i + nn) =~= tail@.subrange(0, nn as int));
                assert(hay@.subrange(i as int, i + nn) == needle@);
            }
            return true;
        }
        proof {
            assert(tail@.subrange(0, nn as int) =~= hay@.subrange(i as int, i + nn));
        }
        i += 1;
    }
    proof {
        assert forall|k: int| 0 <= k && k + needle@.len() <= hay@.len() implies #[trigger] hay@.subrange(
            k,
            k + needle@.len(),
        ) != needle@ by {
            assert(k < i);
        }
    }
    false
}

/// Encoding distributes over concatenation.
pub proof fn lemma_encode_concat(a: Seq<char>, b: Seq<char>)
    ensures
        vstd::utf8::encode_utf8(a + b) == vstd::utf8::encode_utf8(a) + vstd::utf8::encode_utf8(
            b,
        ),
    decreases a.len(),
{
    if a.len() == 0 {
        assert(a + b =~= b);
        assert(vstd::utf8::encode_utf8(a) =~= Seq::<u8>::empty());
        assert(vstd::utf8::encode_utf8(a) + vstd::utf8::encode_utf8(b)
            =~= vstd::utf8::encode_utf8(b));
    } else {
        assert((a + b).len() > 0);
        assert((a + b)[0] == a[0]);
        assert((a + b).drop_first() =~= a.drop_first() + b);
        lemma_encode_concat(a.drop_first(), b);
        assert(vstd::utf8::encode_utf8(a + b) =~= vstd::utf8::encode_utf8(a)
            + vstd::utf8::encode_utf8(b));
    }
}

/// A byte string below 128 everywhere is valid UTF-8.
pub proof fn lemma_ascii_valid(b: Seq<u8>)
    requires
        forall|i: int| 0 <= i < b.len() ==> (#[trigger] b[i]) < 128,
    ensures
        vstd::utf8::valid_utf8(b),
{
    assert(vstd::utf8::partial_valid_utf8(b, 0)) by {
        assert(b.subrange(0, 0) =~= Seq::<u8>::empty());
        reveal_with_fuel(vstd::utf8::valid_utf8, 2);
    }
    assert(forall|i: int|
        0 <= i < b.len() ==> vstd::utf8::is_leading_byte_width_1(#[trigger] b[i]));
    vstd::utf8::partial_valid_utf8_extend_ascii_block(b, 0, b.len() as int);
    assert(b.subrange(0, b.len() as int) =~= b);
}

/// The case-folded form of a piece of text, as full Unicode lowercasing
/// produces it.  The result depends on the characters alone, so it is
/// given a name; the entity name index and the cross-source merge are
/// keyed by it.
pub uninterp spec fn lower_of(b: Seq<u8>) -> Seq<u8>;

/// Relies on std's str::to_lowercase: Unicode case folding, a function of
/// the characters alone.
#[verifier::external_body]
pub fn fold_name(s: &str) -> (r: String)
    ensures
        string_bytes(&r) == lower_of(str_bytes(s)),
{
    s.to_lowercase()
}

/// The split of a byte string at a separator, defined by recursion: what
/// `split_bytes` computes, as a function of the input.
pub open spec fn spec_split(s: Seq<u8>, sep: u8) -> Seq<Seq<u8>>
    decreases s.len(),
{
    if s.len() == 0 {
        seq![Seq::<u8>::empty()]
    } else if s[0] == sep {
        seq![Seq::<u8>::empty()] + spec_split(s.drop_first(), sep)
    } else {
        let rest = spec_split(s.drop_first(), sep);
        seq![seq![s[0]] + rest[0]] + rest.drop_first()
    }
}

/// A split always has at least one piece.
proof fn lemma_split_nonempty(s: Seq<u8>, sep: u8)
    ensures
        spec_split(s, sep).len() >= 1,
    decreases s.len(),
{
    if s.len() > 0 {
        lemma_split_nonempty(s.drop_first(), sep);
    }
}

/// A separator-free string splits into itself alone.
proof fn lemma_split_whole(p: Seq<u8>, sep: u8)
    requires
        !p.contains(sep),
    ensures
        spec_split(p, sep) == seq![p],
    decreases p.len(),
{
    if p.len() == 0 {
        assert(spec_split(p, sep) =~~= seq![p]);
    } else {
        assert(p[0] != sep);
        assert(!p.drop_first().contains(sep)) by {
            if p.drop_first().contains(sep) {
                let w = choose|w: int|
                    0 <= w < p.drop_first().len() && p.drop_first()[w] == sep;
                assert(p[w + 1] == sep);
            }
        }
        lemma_split_whole(p.drop_first(), sep);
        let rest = spec_split(p.drop_first(), sep);
        assert(rest[0] == p.drop_first());
        assert(seq![p[0]] + rest[0] =~~= p);
        assert(rest.drop_first() =~~= Seq::<Seq<u8>>::empty());
        assert(spec_split(p, sep) =~~= seq![p]);
    }
}

/// Splitting after a leading separator-free piece peels it off.
proof fn lemma_split_peel(p0: Seq<u8>, t: Seq<u8>, sep: u8)
    requires
        !p0.contains(sep),
    ensures
        spec_split(p0 + seq![sep] + t, sep) == seq![p0] + spec_split(t, sep),
    decreases p0.len(),
{
    let s = p0 + seq![sep] + t;
    if p0.len() == 0 {
        assert(s[0] == sep);
        assert(s.drop_first() =~= t);
        assert(spec_split(s, sep) =~~= seq![p0] + spec_split(t, sep));
    } else {
        assert(s[0] == p0[0]);
        assert(p0[0] != sep);
        assert(!p0.drop_first().contains(sep)) by {
            if p0.drop_first().contains(sep) {
                let w = choose|w: int|
                    0 <= w < p0.drop_first().len() && p0.drop_first()[w] == sep;
                assert(p0[w + 1] == sep);
            }
        }
        lemma_split_peel(p0.drop_first(), t, sep);
        assert(s.drop_first() =~~= p0.drop_first() + seq![sep] + t);
        let rest = spec_split(s.drop_first(), sep);
        assert(rest == seq![p0.drop_first()] + spec_split(t, sep));
        assert(rest[0] == p0.drop_first());
        assert(seq![s[0]] + rest[0] =~~= p0);
        assert(rest.drop_first() =~~= spec_split(t, sep));
        assert(spec_split(s, sep) =~~= seq![p0] + spec_split(t, sep));
    }
}

/// A join is split back into exactly its pieces: the split is the unique
/// separator-free decomposition.
pub proof fn lemma_split_unique(parts: Seq<Seq<u8>>, s: Seq<u8>, sep: u8)
    requires
        parts.len() >= 1,
        join_with(parts, sep) == s,
        forall|i: int| 0 <= i < parts.len() ==> !(#[trigger] parts[i]).contains(sep),
    ensures
        spec_split(s, sep) == parts,
    decreases parts.len(),
{
    if parts.len() == 1 {
        assert(s == parts[0]);
        lemma_split_whole(parts[0], sep);
        assert(spec_split(s, sep) =~~= parts);
    } else {
        assert(s == parts[0] + seq![sep] + join_with(parts.drop_first(), sep));
        lemma_split_peel(parts[0], join_with(parts.drop_first(), sep), sep);
        lemma_split_unique(parts.drop_first(), join_with(parts.drop_first(), sep), sep);
        assert(spec_split(s, sep) =~~= parts);
    }
}

/// The first position of a byte, or the length when absent.
pub open spec fn first_byte(s: Seq<u8>, b: u8) -> int
    decreases s.len(),
{
    if s.len() == 0 {
        0
    } else if s[0] == b {
        0
    } else {
        1 + first_byte(s.drop_first(), b)
    }
}

/// A forward scan with no hit before `i` pins down the first position.
pub proof fn lemma_first_byte(s: Seq<u8>, b: u8, i: int)
    requires
        0 <= i <= s.len(),
        forall|j: int| 0 <= j < i ==> s[j] != b,
        i == s.len() || s[i] == b,
    ensures
        first_byte(s, b) == i,
    decreases i,
{
    if i > 0 {
        lemma_first_byte(s.drop_first(), b, i - 1);
    }
}

/// One past the last position of a byte, or zero when absent.
pub open spec fn after_last_byte(s: Seq<u8>, b: u8) -> int
    decreases s.len(),
{
    if s.len() == 0 {
        0
    } else if s.last() == b {
        s.len() as int
    } else {
        after_last_byte(s.drop_last(), b)
    }
}

/// A backward scan with no hit at or after `j` pins down the position.
pub proof fn lemma_after_last_byte(s: Seq<u8>, b: u8, j: int)
    requires
        0 <= j <= s.len(),
        forall|k: int| j <= k < s.len() ==> s[k] != b,
        j == 0 || s[j - 1] == b,
    ensures
        after_last_byte(s, b) == j,
    decreases s.len(),
{
    if s.len() > 0 {
        if s.last() == b {
            assert(j == s.len());
        } else {
            assert(j < s.len());
            lemma_after_last_byte(s.drop_last(), b, j);
        }
    }
}

/// ASCII lower-casing of one byte.
pub open spec fn lower8(b: u8) -> u8 {
    if 65 <= b <= 90 {
        (b + 32) as u8
    } else {
        b
    }
}

/// ASCII lower-casing of a byte string; bytes outside A-Z are unchanged.
pub fn lower_bytes(s: &[u8]) -> (r: Vec<u8>)
    ensures
        r@ == Seq::new(s@.len(), |i: int| lower8(s@[i])),
{
    let mut r: Vec<u8> = Vec::new();
    let n = s.len();
    let mut i: usize = 0;
    while i < n
        invariant
            i <= n,
            n == s@.len(),
            r@ =~= Seq::new(i as nat, |j: int| lower8(s@[j])),
        decreases n - i,
    {
        let b = s[i];
        if 65 <= b && b <= 90 {
            r.push(b + 32);
        } else {
            r.push(b);
        }
        assert(r@ =~= Seq::new((i + 1) as nat, |j: int| lower8(s@[j])));
        i += 1;
    }
    r
}

} // verus!
