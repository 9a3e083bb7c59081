//! Character-level text operations: searching, splitting and joining.
use vstd::prelude::*;
use vstd::string::*;

verus! {

/// Index of the first occurrence of `c` in `s`, or `s.len()` when `c` does not occur.
pub open spec fn index_of_char(s: Seq<char>, c: char) -> int
    decreases s.len(),
{
    if s.len() == 0 {
        0
    } else if s[0] == c {
        0
    } else {
        1 + index_of_char(s.drop_first(), c)
    }
}

/// `index_of_char` lies within `0..=s.len()`, is `s.len()` exactly when `c` is absent,
/// and no earlier position holds `c`.
pub proof fn lemma_index_of_char(s: Seq<char>, c: char)
    ensures
        0 <= index_of_char(s, c) <= s.len(),
        index_of_char(s, c) < s.len() ==> s[index_of_char(s, c)] == c,
        forall|j: int| 0 <= j < index_of_char(s, c) ==> s[j] != c,
    decreases s.len(),
{
    if s.len() > 0 && s[0] != c {
        lemma_index_of_char(s.drop_first(), c);
        assert forall|j: int| 0 <= j < index_of_char(s, c) implies s[j] != c by {
            if j > 0 {
                assert(s[j] == s.drop_first()[j - 1]);
            }
        }
    }
}

/// A position `i` such that no earlier character is `c`, and that is either the end of
/// `s` or holds `c`, is the index of the first `c`.
pub proof fn lemma_index_of_char_is(s: Seq<char>, c: char, i: int)
    requires
        0 <= i <= s.len(),
        forall|j: int| 0 <= j < i ==> s[j] != c,
        i == s.len() || s[i] == c,
    ensures
        index_of_char(s, c) == i,
    decreases s.len(),
{
    if s.len() > 0 && s[0] != c {
        assert forall|j: int| 0 <= j < i - 1 implies s.drop_first()[j] != c by {
            assert(s.drop_first()[j] == s[j + 1]);
        }
        lemma_index_of_char_is(s.drop_first(), c, i - 1);
    }
}

/// The pieces of `s` between occurrences of the separator `c`, as `str::split` yields them:
/// the empty text gives one empty piece, and a text with `n` separators gives `n + 1` pieces.
pub open spec fn split_on(s: Seq<char>, c: char) -> Seq<Seq<char>>
    decreases s.len(),
{
    let i = index_of_char(s, c);
    if 0 <= i < s.len() {
        seq![s.take(i)] + split_on(s.skip(i + 1), c)
    } else {
        seq![s]
    }
}

/// A text without the separator is a single piece.
pub proof fn lemma_split_on_whole(s: Seq<char>, c: char)
    requires
        !s.contains(c),
    ensures
        split_on(s, c) == seq![s],
{
    lemma_index_of_char_is(s, c, s.len() as int);
}

/// Splitting two texts joined by the separator gives the pieces of the first, then
/// those of the second.
pub proof fn lemma_split_on_joined(a: Seq<char>, b: Seq<char>, c: char)
    ensures
        split_on(a + seq![c] + b, c) == split_on(a, c) + split_on(b, c),
    decreases a.len(),
{
    let s = a + seq![c] + b;
    lemma_index_of_char(a, c);
    let i = index_of_char(a, c);
    if i < a.len() {
        lemma_index_of_char_is(s, c, i);
        assert(s.take(i) =~= a.take(i));
        assert(s.skip(i + 1) =~= a.skip(i + 1) + seq![c] + b);
        lemma_split_on_joined(a.skip(i + 1), b, c);
        assert(split_on(a, c) == seq![a.take(i)] + split_on(a.skip(i + 1), c));
        assert(split_on(s, c) =~= split_on(a, c) + split_on(b, c));
    } else {
        assert forall|j: int| 0 <= j < a.len() implies s[j] != c by {
            assert(s[j] == a[j]);
        }
        lemma_index_of_char_is(s, c, a.len() as int);
        assert(s.take(a.len() as int) =~= a);
        assert(s.skip(a.len() as int + 1) =~= b);
        assert(split_on(a, c) == seq![a]);
        assert(split_on(s, c) =~= split_on(a, c) + split_on(b, c));
    }
}

/// The text before the first `c` and, when `c` occurs, the text after it, as
/// `str::splitn(2, c)` yields them.
pub open spec fn split_once(s: Seq<char>, c: char) -> (Seq<char>, Option<Seq<char>>) {
    let i = index_of_char(s, c);
    if 0 <= i < s.len() {
        (s.take(i), Some(s.skip(i + 1)))
    } else {
        (s, None)
    }
}

/// Position of the first `c` in `s` at or after `from`, or the length of `s`.
pub fn find_char_from(s: &str, c: char, from: usize) -> (i: usize)
    requires
        from <= s@.len(),
    ensures
        i == from + index_of_char(s@.skip(from as int), c),
        from <= i <= s@.len(),
{
    let len = s.unicode_len();
    let mut i = from;
    while i < len && s.get_char(i) != c
        invariant
            len == s@.len(),
            from <= i <= len,
            forall|j: int| from <= j < i ==> s@[j] != c,
        decreases len - i,
    {
        i = i + 1;
    }
    proof {
        let t = s@.skip(from as int);
        assert forall|j: int| 0 <= j < i - from implies t[j] != c by {
            assert(t[j] == s@[j + from]);
        }
        if i < len {
            assert(t[i - from] == s@[i as int]);
        }
        lemma_index_of_char_is(t, c, i - from);
    }
    i
}

/// The characters of `s` from position `from` up to, not including, position `to`.
pub fn substring(s: &str, from: usize, to: usize) -> (r: String)
    requires
        from <= to <= s@.len(),
    ensures
        r@ == s@.subrange(from as int, to as int),
{
    s.substring_char(from, to).to_owned()
}

/// Splits `s` at every occurrence of `c`.
pub fn split_by(s: &str, c: char) -> (pieces: Vec<String>)
    ensures
        pieces@.map_values(|p: String| p@) == split_on(s@, c),
{
    let len = s.unicode_len();
    let mut pieces: Vec<String> = Vec::new();
    let mut start: usize = 0;
    assert(s@.skip(0) =~= s@);
    assert(pieces@.map_values(|p: String| p@) + split_on(s@, c) =~= split_on(s@, c));
    loop
        invariant
            len == s@.len(),
            start <= len,
            pieces@.map_values(|p: String| p@) + split_on(s@.skip(start as int), c) == split_on(s@, c),
        decreases len - start,
    {
        let i = find_char_from(s, c, start);
        let piece = substring(s, start, i);
        let ghost rest = s@.skip(start as int);
        let ghost k = i - start;
        proof {
            lemma_index_of_char(rest, c);
            assert(piece@ == rest.take(k));
        }
        let ghost before = pieces@.map_values(|p: String| p@);
        if i == len {
            proof {
                assert(rest.take(k) =~= rest);
                assert(split_on(rest, c) == seq![rest]);
            }
            pieces.push(piece);
            assert(pieces@.map_values(|p: String| p@) =~= before.push(rest));
            assert(before + seq![rest] =~= before.push(rest));
            return pieces;
        }
        proof {
            assert(rest.skip(k + 1) =~= s@.skip(i + 1));
            assert(split_on(rest, c) == seq![rest.take(k)] + split_on(s@.skip(i + 1), c));
        }
        pieces.push(piece);
        proof {
            assert(pieces@.map_values(|p: String| p@) =~= before.push(rest.take(k)));
            assert(before + (seq![rest.take(k)] + split_on(s@.skip(i + 1), c))
                =~= before.push(rest.take(k)) + split_on(s@.skip(i + 1), c));
        }
        start = i + 1;
    }
}

/// Whether two texts hold the same characters.
pub fn text_equals(a: &str, b: &str) -> (r: bool)
    ensures
        r == (a@ == b@),
{
    let n = a.unicode_len();
    if n != b.unicode_len() {
        return false;
    }
    let mut i: usize = 0;
    while i < n
        invariant
            n == a@.len(),
            n == b@.len(),
            i <= n,
            forall|j: int| 0 <= j < i ==> a@[j] == b@[j],
        decreases n - i,
    {
        if a.get_char(i) != b.get_char(i) {
            return false;
        }
        i = i + 1;
    }
    assert(a@ =~= b@);
    true
}

/// The texts joined with the separator `sep` between consecutive texts.
pub open spec fn join_texts(parts: Seq<Seq<char>>, sep: Seq<char>) -> Seq<char>
    decreases parts.len(),
{
    if parts.len() == 0 {
        seq![]
    } else if parts.len() == 1 {
        parts[0]
    } else {
        join_texts(parts.drop_last(), sep) + sep + parts.last()
    }
}

/// Joins texts with a separator, as `[String]::join` does.
pub fn join(parts: &Vec<String>, sep: &str) -> (r: String)
    ensures
        r@ == join_texts(parts@.map_values(|p: String| p@), sep@),
{
    let ghost pv = parts@.map_values(|p: String| p@);
    let mut r = String::new();
    let mut i: usize = 0;
    while i < parts.len()
        invariant
            pv == parts@.map_values(|p: String| p@),
            i <= parts.len(),
            r@ == join_texts(pv.take(i as int), sep@),
        decreases parts.len() - i,
    {
        let ghost before = r@;
        if i > 0 {
            r.append(sep);
        }
        r.append(parts[i].as_str());
        proof {
            let t = pv.take(i + 1);
            assert(t.drop_last() =~= pv.take(i as int));
            assert(t.last() == parts@[i as int]@);
            if i == 0 {
                assert(r@ =~= t[0]);
            } else {
                assert(r@ =~= before + sep@ + t.last());
            }
        }
        i = i + 1;
    }
    assert(pv.take(parts.len() as int) =~= pv);
    r
}

/// Whether `c` is an ASCII decimal digit.
pub open spec fn is_digit(c: char) -> bool {
    '0' <= c && c <= '9'
}

/// The value of a text of decimal digits.
pub open spec fn digits_value(s: Seq<char>) -> int
    decreases s.len(),
{
    if s.len() == 0 {
        0
    } else {
        digits_value(s.drop_last()) * 10 + (s.last() as int - 48)
    }
}

/// The `i32` that `str::parse::<i32>` reads from a text: an optional `+` or `-`
/// followed by at least one decimal digit and nothing else, whose value fits in an
/// `i32`; `None` for any other text.
pub open spec fn parsed_i32(s: Seq<char>) -> Option<i32> {
    let neg = s.len() > 0 && s[0] == '-';
    let sign = if s.len() > 0 && (s[0] == '-' || s[0] == '+') {
        1int
    } else {
        0int
    };
    let ds = s.skip(sign);
    if ds.len() == 0 || !all_digits(ds) {
        None
    } else {
        let v = if neg {
            -digits_value(ds)
        } else {
            digits_value(ds)
        };
        if i32::MIN <= v <= i32::MAX {
            Some(v as i32)
        } else {
            None
        }
    }
}

/// Whether every character of the text is a decimal digit.
pub open spec fn all_digits(ds: Seq<char>) -> bool {
    forall|i: int| 0 <= i < ds.len() ==> is_digit(#[trigger] ds[i])
}

/// A text of digits is worth at least as much as any of its prefixes.
proof fn lemma_digits_value_grows(s: Seq<char>, k: int)
    requires
        0 <= k <= s.len(),
        forall|i: int| 0 <= i < s.len() ==> is_digit(#[trigger] s[i]),
    ensures
        digits_value(s) >= digits_value(s.take(k)) >= 0,
    decreases s.len(),
{
    if k == s.len() {
        assert(s.take(k) =~= s);
        if s.len() > 0 {
            lemma_digits_value_grows(s.drop_last(), s.len() - 1);
            assert(s.drop_last().take(s.len() - 1) =~= s.drop_last());
            assert(is_digit(s[s.len() - 1]));
        }
    } else {
        lemma_digits_value_grows(s.drop_last(), k);
        assert(s.drop_last().take(k) =~= s.take(k));
        lemma_digits_value_grows(s.drop_last(), s.len() - 1);
        assert(s.drop_last().take(s.len() - 1) =~= s.drop_last());
        assert(is_digit(s[s.len() - 1]));
    }
}

/// Parses a decimal `i32` as `str::parse::<i32>` does.
pub fn parse_i32(s: &str) -> (r: Option<i32>)
    ensures
        r == parsed_i32(s@),
{
    let n = s.unicode_len();
    if n == 0 {
        return None;
    }
    let first = s.get_char(0);
    let neg = first == '-';
    let start: usize = if first == '-' || first == '+' {
        1
    } else {
        0
    };
    let ghost ds = s@.skip(start as int);
    if start == n {
        return None;
    }
    let limit: i64 = if neg {
        2147483648
    } else {
        2147483647
    };
    let mut acc: i64 = 0;
    let mut i: usize = start;
    assert(ds.take(0) =~= seq![]);
    while i < n
        invariant
            n == s@.len(),
            n > 0,
            neg == (s@[0] == '-'),
            (start == 1) == (s@[0] == '-' || s@[0] == '+'),
            start <= 1,
            start <= i <= n,
            ds =~= s@.skip(start as int),
            limit == (if neg {
                2147483648i64
            } else {
                2147483647i64
            }),
            forall|j: int| 0 <= j < i - start ==> is_digit(#[trigger] ds[j]),
            acc == digits_value(ds.take(i - start)),
            0 <= acc <= limit,
        decreases n - i,
    {
        let c = s.get_char(i);
        assert(ds[i - start] == c);

        if c < '0' || c > '9' {
            assert(!is_digit(ds[i - start]));
            assert(!all_digits(ds));
            assert(parsed_i32(s@) is None);
            return None;
        }
        let d = (c as u32 - 48) as i64;
        proof {
            assert(ds.take(i - start + 1).drop_last() =~= ds.take(i - start));
            assert(ds.take(i - start + 1).last() == c);
        }
        if acc > (limit - d) / 10 {
            proof {
                assert(acc * 10 + d > limit) by (nonlinear_arith)
                    requires
                        acc > (limit - d) / 10,
                        0 <= d <= 9,
                        limit > 0,
                ;
                assert(digits_value(ds.take(i - start + 1)) == acc * 10 + d);
                if all_digits(ds) {
                    lemma_digits_value_grows(ds, i - start + 1);
                    assert(digits_value(ds) > limit);
                }
                assert(parsed_i32(s@) is None);
            }
            return None;
        }
        proof {
            assert(acc * 10 + d <= limit) by (nonlinear_arith)
                requires
                    acc <= (limit - d) / 10,
                    0 <= d <= 9,
                    acc >= 0,
            ;
        }
        acc = acc * 10 + d;
        i = i + 1;
    }
    assert(ds.take(n - start) =~= ds);
    if neg {
        Some((0 - acc) as i32)
    } else {
        Some(acc as i32)
    }
}

/// A key and value pair, as text.
pub type PairView = (Seq<char>, Seq<char>);

/// Whether text `a` comes strictly before text `b`, character by character by code
/// point, a proper prefix first: the order of `String`s.
pub open spec fn text_less(a: Seq<char>, b: Seq<char>) -> bool
    decreases a.len(),
{
    if b.len() == 0 {
        false
    } else if a.len() == 0 {
        true
    } else if a[0] == b[0] {
        text_less(a.drop_first(), b.drop_first())
    } else {
        (a[0] as u32) < (b[0] as u32)
    }
}

/// The pairs are in strictly increasing order of their keys, so that no key occurs
/// twice: what a map sorted by key holds.
pub open spec fn keys_sorted(pairs: Seq<PairView>) -> bool {
    forall|i: int, j: int| 0 <= i < j < pairs.len() ==> text_less(#[trigger] pairs[i].0, #[trigger] pairs[j].0)
}

/// The view of a sequence of executable key and value pairs.
pub open spec fn pairs_view(pairs: Seq<(String, String)>) -> Seq<PairView> {
    pairs.map_values(|p: (String, String)| (p.0@, p.1@))
}

/// The value paired with the first occurrence of key `k`, if any.
pub open spec fn value_of(pairs: Seq<PairView>, k: Seq<char>) -> Option<Seq<char>>
    decreases pairs.len(),
{
    if pairs.len() == 0 {
        None
    } else if pairs[0].0 == k {
        Some(pairs[0].1)
    } else {
        value_of(pairs.drop_first(), k)
    }
}

/// Looks up the value of the first pair whose key is `k`.
pub fn pair_value<'a>(pairs: &'a Vec<(String, String)>, k: &str) -> (r: Option<&'a String>)
    ensures
        match r {
            Some(v) => value_of(pairs_view(pairs@), k@) == Some(v@),
            None => value_of(pairs_view(pairs@), k@) is None,
        },
{
    let ghost pv = pairs_view(pairs@);
    let mut i: usize = 0;
    assert(pv.skip(0) =~= pv);
    while i < pairs.len()
        invariant
            pv == pairs_view(pairs@),
            i <= pairs.len(),
            value_of(pv, k@) == value_of(pv.skip(i as int), k@),
        decreases pairs.len() - i,
    {
        assert(pv.skip(i as int).drop_first() =~= pv.skip(i + 1));
        assert(pv.skip(i as int)[0] == pv[i as int]);
        if text_equals(pairs[i].0.as_str(), k) {
            return Some(&pairs[i].1);
        }
        i = i + 1;
    }
    None
}

/// The view of an optional text.
pub open spec fn opt_text(o: Option<String>) -> Option<Seq<char>> {
    match o {
        Some(s) => Some(s@),
        None => None,
    }
}

/// The view of a sequence of texts.
pub open spec fn texts_view(t: Seq<String>) -> Seq<Seq<char>> {
    t.map_values(|s: String| s@)
}

/// The index of the first pair whose key is `k`.
pub open spec fn key_index(pairs: Seq<PairView>, k: Seq<char>) -> Option<int>
    decreases pairs.len(),
{
    if pairs.len() == 0 {
        None
    } else if pairs[0].0 == k {
        Some(0)
    } else {
        match key_index(pairs.drop_first(), k) {
            Some(i) => Some(i + 1),
            None => None,
        }
    }
}

/// The pairs with key `k` set to `v`: the first pair with that key gets the value,
/// and a pair is added at the end when none has the key.
pub open spec fn upsert(pairs: Seq<PairView>, k: Seq<char>, v: Seq<char>) -> Seq<PairView> {
    match key_index(pairs, k) {
        Some(i) => pairs.update(i, (k, v)),
        None => pairs.push((k, v)),
    }
}

/// Sets a key to a value in a list of pairs, as `upsert` describes.
pub fn upsert_pair(pairs: &mut Vec<(String, String)>, k: String, v: String)
    ensures
        pairs_view(final(pairs)@) == upsert(pairs_view(old(pairs)@), k@, v@),
{
    let ghost pv = pairs_view(pairs@);
    let mut i: usize = 0;
    assert(pv.skip(0) =~= pv);
    while i < pairs.len()
        invariant
            pv == pairs_view(pairs@),
            pairs@ == old(pairs)@,
            i <= pairs.len(),
            key_index(pv, k@) == (match key_index(pv.skip(i as int), k@) {
                Some(j) => Some(j + i),
                None => None,
            }),
        decreases pairs.len() - i,
    {
        assert(pv.skip(i as int).drop_first() =~= pv.skip(i + 1));
        assert(pv.skip(i as int)[0] == pv[i as int]);
        if text_equals(pairs[i].0.as_str(), k.as_str()) {
            assert(pv[i as int].0 == k@);
            assert(key_index(pv.skip(i as int), k@) == Some(0int));
            pairs.set(i, (k, v));
            assert(pairs_view(pairs@) =~= pv.update(i as int, (k@, v@)));
            return;
        }
        i = i + 1;
    }
    pairs.push((k, v));
    assert(pairs_view(pairs@) =~= pv.push((k@, v@)));
}

/// `key_index` finds the first pair with the key.
pub proof fn lemma_key_index(pairs: Seq<PairView>, k: Seq<char>)
    ensures
        match key_index(pairs, k) {
            Some(i) => 0 <= i < pairs.len() && pairs[i].0 == k && forall|j: int|
                0 <= j < i ==> (#[trigger] pairs[j]).0 != k,
            None => forall|j: int| 0 <= j < pairs.len() ==> (#[trigger] pairs[j]).0 != k,
        },
        value_of(pairs, k) == match key_index(pairs, k) {
            Some(i) => Some(pairs[i].1),
            None => None,
        },
    decreases pairs.len(),
{
    if pairs.len() > 0 && pairs[0].0 != k {
        let rest = pairs.drop_first();
        lemma_key_index(rest, k);
        assert forall|j: int| 0 < j < pairs.len() implies pairs[j] == rest[j - 1] by {}
    }
}

/// The first pair with key `k` is at `i`.
pub proof fn lemma_key_index_is(pairs: Seq<PairView>, k: Seq<char>, i: int)
    requires
        0 <= i < pairs.len(),
        pairs[i].0 == k,
        forall|j: int| 0 <= j < i ==> (#[trigger] pairs[j]).0 != k,
    ensures
        key_index(pairs, k) == Some(i),
    decreases pairs.len(),
{
    if i > 0 {
        let rest = pairs.drop_first();
        assert(pairs[0].0 != k);
        assert forall|j: int| 0 <= j < i - 1 implies (#[trigger] rest[j]).0 != k by {
            assert(rest[j] == pairs[j + 1]);
        }
        lemma_key_index_is(rest, k, i - 1);
    }
}

/// No pair has key `k`.
pub proof fn lemma_key_index_none(pairs: Seq<PairView>, k: Seq<char>)
    requires
        forall|j: int| 0 <= j < pairs.len() ==> (#[trigger] pairs[j]).0 != k,
    ensures
        key_index(pairs, k) is None,
    decreases pairs.len(),
{
    if pairs.len() > 0 {
        let rest = pairs.drop_first();
        assert forall|j: int| 0 <= j < rest.len() implies (#[trigger] rest[j]).0 != k by {
            assert(rest[j] == pairs[j + 1]);
        }
        lemma_key_index_none(rest, k);
    }
}

/// After setting a key, the key has the new value and every other key keeps its value.
pub proof fn lemma_upsert_value(pairs: Seq<PairView>, k: Seq<char>, v: Seq<char>, k2: Seq<char>)
    ensures
        value_of(upsert(pairs, k, v), k2) == if k2 == k {
            Some(v)
        } else {
            value_of(pairs, k2)
        },
{
    let u = upsert(pairs, k, v);
    lemma_key_index(pairs, k);
    lemma_key_index(pairs, k2);
    lemma_key_index(u, k2);
    match key_index(pairs, k) {
        Some(i) => {
            assert(u.len() == pairs.len());
            assert forall|j: int| 0 <= j < u.len() implies (#[trigger] u[j]).0 == pairs[j].0 by {}
            match key_index(pairs, k2) {
                Some(i2) => {
                    assert forall|j: int| 0 <= j < i2 implies (#[trigger] u[j]).0 != k2 by {
                        assert(u[j].0 == pairs[j].0);
                    }
                    lemma_key_index_is(u, k2, i2);
                },
                None => {
                    assert forall|j: int| 0 <= j < u.len() implies (#[trigger] u[j]).0 != k2 by {
                        assert(u[j].0 == pairs[j].0);
                    }
                    lemma_key_index_none(u, k2);
                },
            }
        },
        None => {
            assert(u == pairs.push((k, v)));
            if k2 == k {
                assert forall|j: int| 0 <= j < pairs.len() implies (#[trigger] u[j]).0 != k2 by {
                    assert(u[j] == pairs[j]);
                }
                lemma_key_index_is(u, k2, pairs.len() as int);
            } else {
                match key_index(pairs, k2) {
                    Some(i2) => {
                        assert forall|j: int| 0 <= j < i2 implies (#[trigger] u[j]).0 != k2 by {
                            assert(u[j] == pairs[j]);
                        }
                        assert(u[i2] == pairs[i2]);
                        lemma_key_index_is(u, k2, i2);
                    },
                    None => {
                        assert forall|j: int| 0 <= j < u.len() implies (#[trigger] u[j]).0 != k2 by {
                            if j < pairs.len() {
                                assert(u[j] == pairs[j]);
                            }
                        }
                        lemma_key_index_none(u, k2);
                    },
                }
            }
        },
    }
}

} // verus!
