//! Text as sequences of characters: conversions between `String` and
//! `Vec<char>`, ordering, searching, splitting and joining.

use vstd::prelude::*;

verus! {

/// Lexicographic order on texts, character by character, by code point.
pub open spec fn lex_lt(a: Seq<char>, b: Seq<char>) -> bool
    decreases a.len(),
{
    if b.len() == 0 {
        false
    } else if a.len() == 0 {
        true
    } else if a[0] != b[0] {
        (a[0] as u32) < (b[0] as u32)
    } else {
        lex_lt(a.drop_first(), b.drop_first())
    }
}

/// The position of the first `c` in `s`, or the length of `s` where it holds none.
pub open spec fn first_index(s: Seq<char>, c: char) -> int
    decreases s.len(),
{
    if s.len() == 0 {
        0
    } else if s[0] == c {
        0
    } else {
        1 + first_index(s.drop_first(), c)
    }
}

/// The pieces of `s` between occurrences of `sep`. A text without `sep`,
/// the empty one too, is a single piece.
pub open spec fn split_on(s: Seq<char>, sep: char) -> Seq<Seq<char>>
    decreases s.len(),
{
    let i = first_index(s, sep);
    if 0 <= i < s.len() {
        seq![s.take(i)] + split_on(s.skip(i + 1), sep)
    } else {
        seq![s]
    }
}

/// The pieces put together with `sep` between neighbours.
pub open spec fn join_with(parts: Seq<Seq<char>>, sep: char) -> Seq<char>
    decreases parts.len(),
{
    if parts.len() == 0 {
        Seq::empty()
    } else if parts.len() == 1 {
        parts[0]
    } else {
        parts[0] + seq![sep] + join_with(parts.drop_first(), sep)
    }
}

/// `needle` occurs in `hay` as a contiguous run of characters.
pub open spec fn occurs_in(needle: Seq<char>, hay: Seq<char>) -> bool {
    exists|i: int| occurs_at(needle, hay, i)
}

/// `needle` occurs in `hay` starting at position `i`.
pub open spec fn occurs_at(needle: Seq<char>, hay: Seq<char>, i: int) -> bool {
    0 <= i && i + needle.len() <= hay.len() && hay.subrange(i, i + needle.len()) == needle
}

/// The texts held by a sequence of character vectors.
pub open spec fn texts(v: Seq<Vec<char>>) -> Seq<Seq<char>> {
    v.map_values(|x: Vec<char>| x@)
}

/// The texts held by a sequence of strings.
pub open spec fn string_texts(v: Seq<String>) -> Seq<Seq<char>> {
    v.map_values(|x: String| x@)
}

/// The texts held by a sequence of pairs of strings.
pub open spec fn pair_texts(v: Seq<(String, String)>) -> Seq<(Seq<char>, Seq<char>)> {
    v.map_values(|p: (String, String)| (p.0@, p.1@))
}

/// The first index lies within the text or at its end, `c` stands there
/// where it lies within, and no `c` stands before it.
pub proof fn lemma_first_index_bounds(s: Seq<char>, c: char)
    ensures
        0 <= first_index(s, c) <= s.len(),
        forall|k: int| 0 <= k < first_index(s, c) ==> s[k] != c,
        first_index(s, c) < s.len() ==> s[first_index(s, c)] == c,
    decreases s.len(),
{
    if s.len() > 0 && s[0] != c {
        lemma_first_index_bounds(s.drop_first(), c);
        assert forall|k: int| 0 <= k < first_index(s, c) implies s[k] != c by {
            if k > 0 {
                assert(s[k] == s.drop_first()[k - 1]);
            }
        }
    }
}

/// The first index is the one position that holds `c` with none before it.
pub proof fn lemma_first_index_is(s: Seq<char>, c: char, n: int)
    requires
        0 <= n <= s.len(),
        forall|k: int| 0 <= k < n ==> s[k] != c,
        n < s.len() ==> s[n] == c,
    ensures
        first_index(s, c) == n,
{
    lemma_first_index_bounds(s, c);
    let f = first_index(s, c);
    if f < n {
        assert(s[f] == c);
    } else if f > n {
        assert(s[n] != c);
    }
}

/// Different characters have different code points.
pub proof fn lemma_code_point_injective(a: char, b: char)
    ensures
        (a as u32) == (b as u32) ==> a == b,
{
    vstd::utf8::char_u32_cast(a, a as u32);
    vstd::utf8::char_u32_cast(b, b as u32);
}

/// No text comes before itself.
pub proof fn lemma_lex_lt_irreflexive(a: Seq<char>)
    ensures
        !lex_lt(a, a),
    decreases a.len(),
{
    if a.len() > 0 {
        lemma_lex_lt_irreflexive(a.drop_first());
    }
}

/// The order of texts is transitive.
pub proof fn lemma_lex_lt_transitive(a: Seq<char>, b: Seq<char>, c: Seq<char>)
    requires
        lex_lt(a, b),
        lex_lt(b, c),
    ensures
        lex_lt(a, c),
    decreases a.len(),
{
    if a.len() > 0 && b.len() > 0 && c.len() > 0 {
        if a[0] == b[0] && b[0] == c[0] {
            lemma_lex_lt_transitive(a.drop_first(), b.drop_first(), c.drop_first());
        }
    }
}

/// Of two different texts one comes before the other.
pub proof fn lemma_lex_lt_total(a: Seq<char>, b: Seq<char>)
    ensures
        a == b || lex_lt(a, b) || lex_lt(b, a),
        !(lex_lt(a, b) && lex_lt(b, a)),
    decreases a.len(),
{
    if a.len() == 0 || b.len() == 0 {
        if a.len() == 0 && b.len() == 0 {
            assert(a =~= b);
        }
    } else if a[0] == b[0] {
        lemma_lex_lt_total(a.drop_first(), b.drop_first());
        if a.drop_first() == b.drop_first() {
            assert(a =~= seq![a[0]] + a.drop_first());
            assert(b =~= seq![b[0]] + b.drop_first());
        }
    } else {
        lemma_code_point_injective(a[0], b[0]);
    }
}

/// Texts that agree on their first `i` characters compare as their rests do.
pub proof fn lemma_lex_lt_skip(a: Seq<char>, b: Seq<char>, i: int)
    requires
        0 <= i <= a.len(),
        i <= b.len(),
        a.take(i) == b.take(i),
    ensures
        lex_lt(a, b) == lex_lt(a.skip(i), b.skip(i)),
    decreases i,
{
    if i == 0 {
        assert(a.skip(0) =~= a);
        assert(b.skip(0) =~= b);
    } else {
        assert(a[0] == a.take(i)[0]);
        assert(b[0] == b.take(i)[0]);
        assert(a.drop_first().take(i - 1) =~= a.take(i).drop_first());
        assert(b.drop_first().take(i - 1) =~= b.take(i).drop_first());
        lemma_lex_lt_skip(a.drop_first(), b.drop_first(), i - 1);
        assert(a.drop_first().skip(i - 1) =~= a.skip(i));
        assert(b.drop_first().skip(i - 1) =~= b.skip(i));
    }
}

/// What `texts` gives for a sequence with one more element.
pub proof fn lemma_texts_push(v: Seq<Vec<char>>, x: Vec<char>)
    ensures
        texts(v.push(x)) == texts(v).push(x@),
{
    assert(texts(v.push(x)) =~= texts(v).push(x@));
}

/// What `string_texts` gives for a sequence with one more element.
pub proof fn lemma_string_texts_push(v: Seq<String>, x: String)
    ensures
        string_texts(v.push(x)) == string_texts(v).push(x@),
{
    assert(string_texts(v.push(x)) =~= string_texts(v).push(x@));
}

/// The elements of a sequence with one more element at its end.
pub proof fn lemma_to_set_push<T>(s: Seq<T>, x: T)
    ensures
        s.push(x).to_set() == s.to_set().insert(x),
{
    let after = s.push(x);
    assert forall|k: T| after.to_set().contains(k) <==> s.to_set().insert(x).contains(k) by {
        if s.contains(k) {
            let n = s.index_of(k);
            assert(after[n] == k);
        }
        if k == x {
            assert(after[s.len() as int] == k);
        }
        if after.contains(k) {
            let n = after.index_of(k);
            if n < s.len() {
                assert(s[n] == k);
            }
        }
    }
    assert(after.to_set() =~= s.to_set().insert(x));
}

/// The empty string literal is the empty text.
pub proof fn lemma_empty_literal()
    ensures
        ""@ == Seq::<char>::empty(),
{
    reveal_strlit("");
    assert(""@ =~= Seq::<char>::empty());
}

/// Joining with one more piece at the end.
pub proof fn lemma_join_push(parts: Seq<Seq<char>>, x: Seq<char>, sep: char)
    ensures
        join_with(parts.push(x), sep) == if parts.len() == 0 {
            x
        } else {
            join_with(parts, sep) + seq![sep] + x
        },
    decreases parts.len(),
{
    if parts.len() == 0 {
    } else {
        let rest = parts.drop_first();
        assert(parts.push(x).drop_first() =~= rest.push(x));
        lemma_join_push(rest, x, sep);
        if rest.len() == 0 {
            assert(join_with(parts.push(x), sep) =~= join_with(parts, sep) + seq![sep] + x);
        } else {
            assert(join_with(parts.push(x), sep) =~= join_with(parts, sep) + seq![sep] + x);
        }
    }
}

/// Splitting never gives an empty list of pieces, and no piece holds the separator.
pub proof fn lemma_split_pieces(s: Seq<char>, sep: char)
    ensures
        split_on(s, sep).len() >= 1,
        forall|i: int, k: int|
            0 <= i < split_on(s, sep).len() && 0 <= k < split_on(s, sep)[i].len()
                ==> split_on(s, sep)[i][k] != sep,
    decreases s.len(),
{
    lemma_first_index_bounds(s, sep);
    let f = first_index(s, sep);
    if 0 <= f < s.len() {
        lemma_split_pieces(s.skip(f + 1), sep);
        let rest = split_on(s.skip(f + 1), sep);
        assert forall|i: int, k: int|
            0 <= i < split_on(s, sep).len() && 0 <= k < split_on(s, sep)[i].len()
                implies split_on(s, sep)[i][k] != sep by {
            if i == 0 {
                assert(split_on(s, sep)[0] == s.take(f));
            } else {
                assert(split_on(s, sep)[i] == rest[i - 1]);
            }
        }
    }
}

/// Joining the pieces of a text gives the text back.
pub proof fn law_join_split(s: Seq<char>, sep: char)
    ensures
        join_with(split_on(s, sep), sep) == s,
    decreases s.len(),
{
    lemma_first_index_bounds(s, sep);
    let f = first_index(s, sep);
    if 0 <= f < s.len() {
        let rest = split_on(s.skip(f + 1), sep);
        law_join_split(s.skip(f + 1), sep);
        lemma_split_pieces(s.skip(f + 1), sep);
        let all = seq![s.take(f)] + rest;
        assert(all.drop_first() =~= rest);
        assert(all[0] == s.take(f));
        assert(s =~= s.take(f) + seq![sep] + s.skip(f + 1));
    } else {
        assert(split_on(s, sep) =~= seq![s]);
    }
}

/// Splitting what was joined gives the pieces back, where there is at least
/// one piece and none holds the separator.
pub proof fn lemma_split_join(parts: Seq<Seq<char>>, sep: char)
    requires
        parts.len() >= 1,
        forall|i: int, k: int| 0 <= i < parts.len() && 0 <= k < parts[i].len() ==> parts[i][k] != sep,
    ensures
        split_on(join_with(parts, sep), sep) == parts,
    decreases parts.len(),
{
    let s = join_with(parts, sep);
    if parts.len() == 1 {
        lemma_first_index_is(s, sep, s.len() as int);
        assert(parts =~= seq![parts[0]]);
    } else {
        let rest = parts.drop_first();
        assert forall|i: int, k: int| 0 <= i < rest.len() && 0 <= k < rest[i].len() implies rest[i][k]
            != sep by {
            assert(rest[i] == parts[i + 1]);
        }
        lemma_split_join(rest, sep);
        let n = parts[0].len() as int;
        assert(s == parts[0] + seq![sep] + join_with(rest, sep));
        assert forall|k: int| 0 <= k < n implies s[k] != sep by {
            assert(s[k] == parts[0][k]);
        }
        assert(s[n] == sep);
        lemma_first_index_is(s, sep, n);
        assert(s.take(n) =~= parts[0]);
        assert(s.skip(n + 1) =~= join_with(rest, sep));
        assert(parts =~= seq![parts[0]] + rest);
    }
}

/// Appends one character to a string.
///
/// Trusted: `String::push` of the standard library, which appends the given
/// character to the end of the string.
#[verifier::external_body]
pub(crate) fn push_char(s: &mut String, c: char)
    ensures
        final(s)@ == old(s)@.push(c),
{
    s.push(c)
}

/// The characters of `s`, in order.
pub fn chars_of(s: &str) -> (out: Vec<char>)
    ensures
        out@ == s@,
{
    let mut out: Vec<char> = Vec::new();
    for c in it: s.chars()
        invariant
            it.seq() == s@,
            out@ == s@.take(it.index() as int),
    {
        out.push(c);
        assert(s@.take(it.index() + 1) == s@.take(it.index() as int).push(c));
    }
    assert(s@.take(s@.len() as int) == s@);
    out
}

/// The string whose characters are `chars`.
pub fn string_of(chars: &Vec<char>) -> (out: String)
    ensures
        out@ == chars@,
{
    let mut out = String::new();
    let mut i: usize = 0;
    while i < chars.len()
        invariant
            i <= chars.len(),
            out@ == chars@.subrange(0, i as int),
        decreases chars.len() - i,
    {
        push_char(&mut out, chars[i]);
        i = i + 1;
        assert(chars@.subrange(0, i as int) == chars@.subrange(0, i - 1).push(chars@[i - 1]));
    }
    assert(chars@.subrange(0, chars.len() as int) == chars@);
    out
}

/// Appends the characters of `more` to `out`.
pub fn push_all(out: &mut Vec<char>, more: &Vec<char>)
    ensures
        final(out)@ == old(out)@ + more@,
{
    let ghost before = out@;
    let mut i: usize = 0;
    assert(more@.take(0) =~= Seq::<char>::empty());
    assert(before + Seq::<char>::empty() =~= before);
    while i < more.len()
        invariant
            i <= more.len(),
            out@ == before + more@.take(i as int),
        decreases more.len() - i,
    {
        out.push(more[i]);
        i = i + 1;
        assert(before + more@.take(i as int) =~= (before + more@.take(i - 1)).push(more@[i - 1]));
    }
    assert(more@.take(more.len() as int) =~= more@);
}

/// A copy of a text.
pub fn copy_chars(chars: &Vec<char>) -> (out: Vec<char>)
    ensures
        out@ == chars@,
{
    let mut out: Vec<char> = Vec::new();
    push_all(&mut out, chars);
    assert(Seq::<char>::empty() + chars@ =~= chars@);
    out
}

/// Appends the characters of `more` to `out`.
pub fn push_text(out: &mut Vec<char>, more: &str)
    ensures
        final(out)@ == old(out)@ + more@,
{
    let chars = chars_of(more);
    push_all(out, &chars);
}

/// Whether two texts hold the same characters.
pub fn same_chars(a: &Vec<char>, b: &Vec<char>) -> (r: bool)
    ensures
        r == (a@ == b@),
{
    if a.len() != b.len() {
        return false;
    }
    let mut i: usize = 0;
    while i < a.len()
        invariant
            i <= a.len(),
            a.len() == b.len(),
            a@.take(i as int) == b@.take(i as int),
        decreases a.len() - i,
    {
        if a[i] != b[i] {
            return false;
        }
        i = i + 1;
        assert(a@.take(i as int) == a@.take(i - 1).push(a@[i - 1]));
        assert(b@.take(i as int) == b@.take(i - 1).push(b@[i - 1]));
    }
    assert(a@.take(a.len() as int) == a@);
    assert(b@.take(b.len() as int) == b@);
    true
}

/// Whether `a` comes before `b` in lexicographic order.
pub fn chars_less(a: &Vec<char>, b: &Vec<char>) -> (r: bool)
    ensures
        r == lex_lt(a@, b@),
{
    let mut i: usize = 0;
    while i < a.len() && i < b.len()
        invariant
            i <= a.len(),
            i <= b.len(),
            a@.take(i as int) == b@.take(i as int),
        decreases a.len() - i,
    {
        let x: u32 = a[i] as u32;
        let y: u32 = b[i] as u32;
        if x != y {
            proof {
                lemma_lex_lt_skip(a@, b@, i as int);
            }
            return x < y;
        }
        proof {
            lemma_code_point_injective(a@[i as int], b@[i as int]);
        }
        i = i + 1;
        assert(a@.take(i as int) == a@.take(i - 1).push(a@[i - 1]));
        assert(b@.take(i as int) == b@.take(i - 1).push(b@[i - 1]));
    }
    proof {
        lemma_lex_lt_skip(a@, b@, i as int);
    }
    i < b.len()
}

/// The pieces of `s` between occurrences of `sep`.
pub fn split(s: &Vec<char>, sep: char) -> (parts: Vec<Vec<char>>)
    ensures
        texts(parts@) == split_on(s@, sep),
{
    let mut parts: Vec<Vec<char>> = Vec::new();
    let mut cur: Vec<char> = Vec::new();
    let ghost mut start: int = 0;
    let mut j: usize = 0;
    assert(s@.skip(0) =~= s@);
    assert(texts(parts@) + split_on(s@, sep) =~= split_on(s@, sep));
    while j < s.len()
        invariant
            0 <= start <= j <= s.len(),
            cur@ == s@.subrange(start, j as int),
            forall|k: int| start <= k < j ==> s@[k] != sep,
            split_on(s@, sep) == texts(parts@) + split_on(s@.skip(start), sep),
        decreases s.len() - j,
    {
        let c = s[j];
        if c == sep {
            proof {
                let tail = s@.skip(start);
                assert forall|k: int| 0 <= k < j - start implies tail[k] != sep by {
                    assert(tail[k] == s@[start + k]);
                }
                lemma_first_index_is(tail, sep, j - start);
                assert(tail.take(j - start) =~= cur@);
                assert(tail.skip(j - start + 1) =~= s@.skip(j + 1));
                lemma_texts_push(parts@, cur);
                assert(texts(parts@).push(cur@) + split_on(s@.skip(j + 1), sep) =~= texts(parts@)
                    + (seq![cur@] + split_on(s@.skip(j + 1), sep)));
                start = j + 1;
            }
            parts.push(cur);
            cur = Vec::new();
            assert(cur@ =~= s@.subrange(start, j + 1));
        } else {
            cur.push(c);
            assert(cur@ =~= s@.subrange(start, j + 1));
        }
        j = j + 1;
    }
    proof {
        let tail = s@.skip(start);
        assert forall|k: int| 0 <= k < tail.len() implies tail[k] != sep by {
            assert(tail[k] == s@[start + k]);
        }
        lemma_first_index_is(tail, sep, tail.len() as int);
        assert(tail =~= cur@);
        lemma_texts_push(parts@, cur);
        assert(texts(parts@).push(cur@) =~= texts(parts@) + seq![cur@]);
    }
    parts.push(cur);
    parts
}

/// The pieces put together with `sep` between neighbours.
pub fn join(parts: &Vec<Vec<char>>, sep: char) -> (out: Vec<char>)
    ensures
        out@ == join_with(texts(parts@), sep),
{
    let mut out: Vec<char> = Vec::new();
    let mut i: usize = 0;
    assert(texts(parts@).take(0) =~= Seq::<Seq<char>>::empty());
    while i < parts.len()
        invariant
            i <= parts.len(),
            out@ == join_with(texts(parts@).take(i as int), sep),
        decreases parts.len() - i,
    {
        let ghost before = out@;
        if i > 0 {
            out.push(sep);
        }
        let piece = &parts[i];
        let ghost mid = out@;
        let mut k: usize = 0;
        while k < piece.len()
            invariant
                k <= piece.len(),
                out@ == mid + piece@.take(k as int),
            decreases piece.len() - k,
        {
            out.push(piece[k]);
            k = k + 1;
            assert(piece@.take(k as int) =~= piece@.take(k - 1).push(piece@[k - 1]));
            assert(out@ =~= mid + piece@.take(k as int));
        }
        proof {
            assert(piece@.take(piece.len() as int) =~= piece@);
            let done = texts(parts@).take(i as int);
            lemma_join_push(done, piece@, sep);
            assert(texts(parts@).take(i + 1) =~= done.push(piece@));
            if i > 0 {
                assert(mid =~= before + seq![sep]);
            } else {
                assert(mid =~= before);
                assert(before + piece@ =~= piece@);
            }
        }
        i = i + 1;
    }
    assert(texts(parts@).take(parts.len() as int) =~= texts(parts@));
    out
}

/// Whether `needle` occurs in `hay` at position `at`.
pub fn found_at(needle: &Vec<char>, hay: &Vec<char>, at: usize) -> (r: bool)
    ensures
        r == occurs_at(needle@, hay@, at as int),
{
    if needle.len() > hay.len() || at > hay.len() - needle.len() {
        return false;
    }
    let mut k: usize = 0;
    while k < needle.len()
        invariant
            k <= needle.len(),
            at + needle.len() <= hay.len(),
            hay@.subrange(at as int, at + k) == needle@.take(k as int),
        decreases needle.len() - k,
    {
        if hay[at + k] != needle[k] {
            assert(hay@.subrange(at as int, at + needle.len())[k as int] != needle@[k as int]);
            return false;
        }
        k = k + 1;
        assert(hay@.subrange(at as int, at + k) =~= hay@.subrange(at as int, at + k - 1).push(
            hay@[at + k - 1],
        ));
        assert(needle@.take(k as int) =~= needle@.take(k - 1).push(needle@[k - 1]));
    }
    assert(needle@.take(needle.len() as int) =~= needle@);
    true
}

/// Whether `needle` occurs somewhere in `hay`. The empty text occurs in every text.
pub fn contains(hay: &Vec<char>, needle: &Vec<char>) -> (r: bool)
    ensures
        r == occurs_in(needle@, hay@),
{
    if needle.len() > hay.len() {
        return false;
    }
    let last: usize = hay.len() - needle.len();
    let mut i: usize = 0;
    loop
        invariant
            i <= last,
            last == hay.len() - needle.len(),
            forall|k: int| 0 <= k < i ==> !occurs_at(needle@, hay@, k),
        decreases last - i,
    {
        if found_at(needle, hay, i) {
            return true;
        }
        if i == last {
            return false;
        }
        i = i + 1;
    }
}

/// Whether `s` begins with `prefix`.
pub fn starts_with(s: &Vec<char>, prefix: &Vec<char>) -> (r: bool)
    ensures
        r == prefix@.is_prefix_of(s@),
{
    let r = found_at(prefix, s, 0);
    proof {
        if prefix.len() <= s.len() {
            assert(s@.subrange(0, prefix.len() as int) =~= s@.take(prefix.len() as int));
        }
    }
    r
}

/// Whether `s` ends with `suffix`.
pub fn ends_with(s: &Vec<char>, suffix: &Vec<char>) -> (r: bool)
    ensures
        r == suffix@.is_suffix_of(s@),
{
    if suffix.len() > s.len() {
        return false;
    }
    let at: usize = s.len() - suffix.len();
    let r = found_at(suffix, s, at);
    proof {
        assert(s@.subrange(at as int, s.len() as int) =~= s@.skip(at as int));
    }
    r
}

/// Whether `a` comes before `b` in lexicographic order.
pub fn text_less(a: &str, b: &str) -> (r: bool)
    ensures
        r == lex_lt(a@, b@),
{
    let x = chars_of(a);
    let y = chars_of(b);
    chars_less(&x, &y)
}

/// Whether two strings hold the same characters.
pub fn text_eq(a: &str, b: &str) -> (r: bool)
    ensures
        r == (a@ == b@),
{
    let x = chars_of(a);
    let y = chars_of(b);
    same_chars(&x, &y)
}

} // verus!
