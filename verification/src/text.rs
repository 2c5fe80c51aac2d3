//! Strings as sequences of characters: conversions between `String` and
//! `Vec<char>`, equality, and the lexicographic order by code point.

use vstd::prelude::*;

verus! {

/// `String::push` of the standard library: appends one character at the end.
pub assume_specification[ String::push ](s: &mut String, c: char)
    ensures
        final(s)@ == old(s)@.push(c),
;

/// The characters of `s`, in order.
pub fn chars_of(s: &str) -> (r: Vec<char>)
    ensures
        r@ == s@,
{
    let mut out: Vec<char> = Vec::new();
    for c in it: s.chars()
        invariant
            it.seq() == s@,
            out@ == s@.take(it.index()),
    {
        out.push(c);
    }
    assert(s@.take(s@.len() as int) =~= s@);
    out
}

/// The string that holds the characters `v[from..to]`.
pub fn string_of_range(v: &Vec<char>, from: usize, to: usize) -> (r: String)
    requires
        from <= to <= v.len(),
    ensures
        r@ == v@.subrange(from as int, to as int),
{
    let mut out = String::new();
    let mut i: usize = from;
    while i < to
        invariant
            from <= i <= to <= v.len(),
            out@ == v@.subrange(from as int, i as int),
        decreases to - i,
    {
        out.push(v[i]);
        assert(v@.subrange(from as int, i + 1) =~= v@.subrange(from as int, i as int).push(
            v@[i as int],
        ));
        i += 1;
    }
    out
}

/// The first `n` characters of `v`.
pub fn prefix_of(v: &Vec<char>, n: usize) -> (r: Vec<char>)
    requires
        n <= v.len(),
    ensures
        r@ == v@.subrange(0, n as int),
{
    let mut out: Vec<char> = Vec::new();
    let mut i: usize = 0;
    while i < n
        invariant
            i <= n <= v.len(),
            out@ == v@.subrange(0, i as int),
        decreases n - i,
    {
        out.push(v[i]);
        assert(v@.subrange(0, i + 1) =~= v@.subrange(0, i as int).push(v@[i as int]));
        i += 1;
    }
    out
}

/// The string that holds the characters of `v`.
pub fn string_of(v: &Vec<char>) -> (r: String)
    ensures
        r@ == v@,
{
    assert(v@.subrange(0, v@.len() as int) =~= v@);
    string_of_range(v, 0, v.len())
}

/// Whether two strings hold the same characters.
pub fn str_eq(a: &str, b: &str) -> (r: bool)
    ensures
        r == (a@ == b@),
{
    let x = chars_of(a);
    let y = chars_of(b);
    chars_eq(&x, &y)
}

/// Whether two character vectors are equal.
pub fn chars_eq(a: &Vec<char>, b: &Vec<char>) -> (r: bool)
    ensures
        r == (a@ == b@),
{
    if a.len() != b.len() {
        return false;
    }
    let mut i: usize = 0;
    while i < a.len()
        invariant
            a.len() == b.len(),
            i <= a.len(),
            forall|j: int| 0 <= j < i ==> a@[j] == b@[j],
        decreases a.len() - i,
    {
        if a[i] != b[i] {
            return false;
        }
        i += 1;
    }
    assert(a@ =~= b@);
    true
}

/// `a` and `b` agree on their first `k` characters.
pub open spec fn common_prefix(a: Seq<char>, b: Seq<char>, k: int) -> bool {
    &&& 0 <= k <= a.len()
    &&& k <= b.len()
    &&& forall|i: int| 0 <= i < k ==> a[i] == b[i]
}

/// `a` comes strictly before `b` in the lexicographic order by code point:
/// at the first place where they differ either `a` has ended and `b` has not,
/// or `a` holds the smaller character. This is the order of `str`'s `<`.
pub open spec fn lex_lt(a: Seq<char>, b: Seq<char>) -> bool {
    exists|k: int|
        #[trigger] common_prefix(a, b, k) && ((k == a.len() && k < b.len()) || (k < a.len() && k
            < b.len() && (a[k] as u32) < (b[k] as u32)))
}

/// Where two sequences first differ decides their order.
pub proof fn lemma_lex_decided(a: Seq<char>, b: Seq<char>, k: int)
    requires
        common_prefix(a, b, k),
        k == a.len() || k == b.len() || a[k] != b[k],
    ensures
        lex_lt(a, b) <==> ((k == a.len() && k < b.len()) || (k < a.len() && k < b.len() && (
        a[k] as u32) < (b[k] as u32))),
{
    if lex_lt(a, b) {
        let j = choose|j: int|
            #[trigger] common_prefix(a, b, j) && ((j == a.len() && j < b.len()) || (j < a.len()
                && j < b.len() && (a[j] as u32) < (b[j] as u32)));
        if j < k {
            assert(a[j] == b[j]);
        } else if j > k {
            if k < a.len() && k < b.len() {
                assert(a[k] == b[k]);
            }
        }
        assert(j == k);
    }
}

pub proof fn lemma_lex_irreflexive(a: Seq<char>)
    ensures
        !lex_lt(a, a),
{
    assert(common_prefix(a, a, a.len() as int));
    lemma_lex_decided(a, a, a.len() as int);
}

/// The length of the longest common prefix of `a` and `b`.
pub open spec fn first_difference(a: Seq<char>, b: Seq<char>) -> int
    decreases a.len(),
{
    if a.len() == 0 || b.len() == 0 || a[0] != b[0] {
        0
    } else {
        1 + first_difference(a.drop_first(), b.drop_first())
    }
}

pub proof fn lemma_first_difference(a: Seq<char>, b: Seq<char>)
    ensures
        common_prefix(a, b, first_difference(a, b)),
        ({
            let k = first_difference(a, b);
            k == a.len() || k == b.len() || a[k] != b[k]
        }),
    decreases a.len(),
{
    if a.len() == 0 || b.len() == 0 || a[0] != b[0] {
    } else {
        lemma_first_difference(a.drop_first(), b.drop_first());
        let k = first_difference(a.drop_first(), b.drop_first());
        assert forall|i: int| 0 <= i < k + 1 implies a[i] == b[i] by {
            if i > 0 {
                assert(a.drop_first()[i - 1] == b.drop_first()[i - 1]);
            }
        }
        if k < a.len() - 1 && k < b.len() - 1 {
            assert(a.drop_first()[k] == a[k + 1]);
            assert(b.drop_first()[k] == b[k + 1]);
        }
    }
}

/// Different characters have different code points.
pub proof fn lemma_char_code_injective(x: char, y: char)
    ensures
        (x as u32) == (y as u32) ==> x == y,
{
    vstd::utf8::char_u32_cast(x, x as u32);
    vstd::utf8::char_u32_cast(y, y as u32);
}

/// Two different sequences are ordered one way or the other.
pub proof fn lemma_lex_total(a: Seq<char>, b: Seq<char>)
    ensures
        a == b || lex_lt(a, b) || lex_lt(b, a),
{
    lemma_first_difference(a, b);
    let k = first_difference(a, b);
    lemma_lex_decided(a, b, k);
    assert(common_prefix(b, a, k));
    lemma_lex_decided(b, a, k);
    if k == a.len() && k == b.len() {
        assert(a =~= b);
    } else if k < a.len() && k < b.len() {
        lemma_char_code_injective(a[k], b[k]);
    }
}

pub proof fn lemma_lex_transitive(a: Seq<char>, b: Seq<char>, c: Seq<char>)
    requires
        lex_lt(a, b),
        lex_lt(b, c),
    ensures
        lex_lt(a, c),
{
    lemma_first_difference(a, b);
    lemma_first_difference(b, c);
    let i = first_difference(a, b);
    let j = first_difference(b, c);
    lemma_lex_decided(a, b, i);
    lemma_lex_decided(b, c, j);
    let k = if i <= j {
        i
    } else {
        j
    };
    assert(common_prefix(a, c, k)) by {
        assert forall|x: int| 0 <= x < k implies a[x] == c[x] by {
            assert(a[x] == b[x]);
            assert(b[x] == c[x]);
        }
    }
    if i < j {
        assert(b[i] == c[i]);
    } else if j < i {
        assert(a[j] == b[j]);
    }
}

pub proof fn lemma_lex_asymmetric(a: Seq<char>, b: Seq<char>)
    requires
        lex_lt(a, b),
    ensures
        !lex_lt(b, a),
        a != b,
{
    lemma_lex_irreflexive(a);
    if lex_lt(b, a) {
        lemma_lex_transitive(a, b, a);
    }
}

/// Whether `a` comes strictly before `b`.
pub fn chars_lt(a: &Vec<char>, b: &Vec<char>) -> (r: bool)
    ensures
        r == lex_lt(a@, b@),
{
    let mut i: usize = 0;
    while i < a.len() && i < b.len()
        invariant
            common_prefix(a@, b@, i as int),
        decreases a.len() - i,
    {
        if a[i] != b[i] {
            proof {
                lemma_lex_decided(a@, b@, i as int);
            }
            return (a[i] as u32) < (b[i] as u32);
        }
        i += 1;
    }
    proof {
        lemma_lex_decided(a@, b@, i as int);
    }
    i < b.len()
}

/// The characters that Unicode gives the property `White_Space`.
pub open spec fn is_space(c: char) -> bool {
    let u = c as u32;
    ||| 0x09 <= u <= 0x0D
    ||| u == 0x20
    ||| u == 0x85
    ||| u == 0xA0
    ||| u == 0x1680
    ||| 0x2000 <= u <= 0x200A
    ||| u == 0x2028
    ||| u == 0x2029
    ||| u == 0x202F
    ||| u == 0x205F
    ||| u == 0x3000
}

/// Whether `c` is white space.
pub fn is_whitespace(c: char) -> (r: bool)
    ensures
        r == is_space(c),
{
    let u: u32 = c as u32;
    (0x09 <= u && u <= 0x0D) || u == 0x20 || u == 0x85 || u == 0xA0 || u == 0x1680 || (0x2000 <= u
        && u <= 0x200A) || u == 0x2028 || u == 0x2029 || u == 0x202F || u == 0x205F || u == 0x3000
}

/// `s` without the white space at its start.
pub open spec fn trim_start(s: Seq<char>) -> Seq<char>
    decreases s.len(),
{
    if s.len() > 0 && is_space(s[0]) {
        trim_start(s.drop_first())
    } else {
        s
    }
}

/// `s` without the white space at its end.
pub open spec fn trim_end(s: Seq<char>) -> Seq<char>
    decreases s.len(),
{
    if s.len() > 0 && is_space(s.last()) {
        trim_end(s.drop_last())
    } else {
        s
    }
}

/// `s` without the white space at either end.
pub open spec fn trim(s: Seq<char>) -> Seq<char> {
    trim_end(trim_start(s))
}

/// Cutting a run of white space off the start of `s` is what `trim_start` does.
pub proof fn lemma_trim_start_is(s: Seq<char>, k: int)
    requires
        0 <= k <= s.len(),
        forall|i: int| 0 <= i < k ==> is_space(#[trigger] s[i]),
        k < s.len() ==> !is_space(s[k]),
    ensures
        trim_start(s) == s.subrange(k, s.len() as int),
    decreases k,
{
    if k == 0 {
        assert(s.subrange(0, s.len() as int) =~= s);
    } else {
        let t = s.drop_first();
        assert(is_space(s[0]));
        assert forall|i: int| 0 <= i < k - 1 implies is_space(#[trigger] t[i]) by {
            assert(t[i] == s[i + 1]);
        }
        if k - 1 < t.len() {
            assert(t[k - 1] == s[k]);
        }
        lemma_trim_start_is(t, k - 1);
        assert(t.subrange(k - 1, t.len() as int) =~= s.subrange(k, s.len() as int));
    }
}

/// Cutting a run of white space off the end of `s` is what `trim_end` does.
pub proof fn lemma_trim_end_is(s: Seq<char>, k: int)
    requires
        0 <= k <= s.len(),
        forall|i: int| k <= i < s.len() ==> is_space(#[trigger] s[i]),
        k > 0 ==> !is_space(s[k - 1]),
    ensures
        trim_end(s) == s.subrange(0, k),
    decreases s.len() - k,
{
    if k == s.len() {
        assert(s.subrange(0, s.len() as int) =~= s);
    } else {
        let t = s.drop_last();
        assert(is_space(s.last()));
        assert forall|i: int| k <= i < t.len() implies is_space(#[trigger] t[i]) by {
            assert(t[i] == s[i]);
        }
        if k > 0 {
            assert(t[k - 1] == s[k - 1]);
        }
        lemma_trim_end_is(t, k);
        assert(t.subrange(0, k) =~= s.subrange(0, k));
    }
}

/// The bounds of `v[from..to]` without the white space at either end.
pub fn trim_range(v: &Vec<char>, from: usize, to: usize) -> (r: (usize, usize))
    requires
        from <= to <= v.len(),
    ensures
        from <= r.0 <= r.1 <= to,
        v@.subrange(r.0 as int, r.1 as int) == trim(v@.subrange(from as int, to as int)),
{
    let ghost s = v@.subrange(from as int, to as int);
    let mut a: usize = from;
    while a < to && is_whitespace(v[a])
        invariant
            from <= a <= to <= v.len(),
            forall|i: int| from <= i < a ==> is_space(#[trigger] v@[i]),
        decreases to - a,
    {
        a += 1;
    }
    let mut b: usize = to;
    while b > a && is_whitespace(v[b - 1])
        invariant
            from <= a <= b <= to <= v.len(),
            forall|i: int| b <= i < to ==> is_space(#[trigger] v@[i]),
        decreases b,
    {
        b -= 1;
    }
    proof {
        assert forall|i: int| 0 <= i < a - from implies is_space(#[trigger] s[i]) by {
            assert(s[i] == v@[from + i]);
        }
        lemma_trim_start_is(s, a - from);
        let t = s.subrange(a - from, s.len() as int);
        assert(t =~= v@.subrange(a as int, to as int));
        assert forall|i: int| b - a <= i < t.len() implies is_space(#[trigger] t[i]) by {
            assert(t[i] == v@[a + i]);
        }
        lemma_trim_end_is(t, b - a);
        assert(t.subrange(0, b - a) =~= v@.subrange(a as int, b as int));
    }
    (a, b)
}

/// The place of the first `c` in `s` at or after `from`, or the length of `s`
/// where there is none.
pub open spec fn find_from(s: Seq<char>, c: char, from: int) -> int
    decreases s.len() - from,
{
    if from >= s.len() {
        s.len() as int
    } else if s[from] == c {
        from
    } else {
        find_from(s, c, from + 1)
    }
}

pub proof fn lemma_find_from(s: Seq<char>, c: char, from: int)
    requires
        0 <= from <= s.len(),
    ensures
        from <= find_from(s, c, from) <= s.len(),
        find_from(s, c, from) < s.len() ==> s[find_from(s, c, from)] == c,
        forall|i: int| from <= i < find_from(s, c, from) ==> s[i] != c,
    decreases s.len() - from,
{
    if from < s.len() && s[from] != c {
        lemma_find_from(s, c, from + 1);
    }
}

pub proof fn lemma_find_from_is(s: Seq<char>, c: char, from: int, k: int)
    requires
        0 <= from <= k <= s.len(),
        k < s.len() ==> s[k] == c,
        forall|i: int| from <= i < k ==> s[i] != c,
    ensures
        find_from(s, c, from) == k,
    decreases k - from,
{
    if from < k {
        lemma_find_from_is(s, c, from + 1, k);
    }
}

/// The place of the first `c` in `v` at or after `from`, or `v.len()`.
pub fn find_char(v: &Vec<char>, c: char, from: usize) -> (r: usize)
    requires
        from <= v.len(),
    ensures
        r == find_from(v@, c, from as int),
        from <= r <= v.len(),
{
    let mut i: usize = from;
    while i < v.len() && v[i] != c
        invariant
            from <= i <= v.len(),
            forall|j: int| from <= j < i ==> v@[j] != c,
        decreases v.len() - i,
    {
        i += 1;
    }
    proof {
        lemma_find_from_is(v@, c, from as int, i as int);
    }
    i
}

} // verus!
