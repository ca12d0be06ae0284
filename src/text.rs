//! Character-sequence helpers shared by the parsers, the classifier and the
//! matching engine.

use vstd::prelude::*;
use vstd::string::{StrSliceExecFns, StringExecFns};

verus! {

/// `k` occurs in `s` starting at index `i`.
pub open spec fn occurs_at(s: Seq<char>, k: Seq<char>, i: int) -> bool {
    0 <= i && i + k.len() <= s.len() && s.subrange(i, i + k.len()) == k
}

/// `k` is a substring of `s`.
pub open spec fn contains(s: Seq<char>, k: Seq<char>) -> bool {
    exists|i: int| occurs_at(s, k, i)
}

/// `i` is the first index at which `k` occurs in `s`.
pub open spec fn first_occurrence(s: Seq<char>, k: Seq<char>, i: int) -> bool {
    occurs_at(s, k, i) && forall|j: int| 0 <= j < i ==> !occurs_at(s, k, j)
}

/// The lower-case form of a string, as std's `str::to_lowercase` computes it.
pub uninterp spec fn lower_of(s: Seq<char>) -> Seq<char>;

/// Unicode whitespace (the `White_Space` property).
pub open spec fn is_space(c: char) -> bool {
    ('\u{9}' <= c <= '\u{d}') || c == ' ' || c == '\u{85}' || c == '\u{a0}' || c == '\u{1680}'
        || ('\u{2000}' <= c <= '\u{200a}') || c == '\u{2028}' || c == '\u{2029}' || c == '\u{202f}'
        || c == '\u{205f}' || c == '\u{3000}'
}

/// `s` without its leading whitespace.
pub open spec fn trim_start_of(s: Seq<char>) -> Seq<char>
    decreases s.len(),
{
    if s.len() > 0 && is_space(s[0]) { trim_start_of(s.drop_first()) } else { s }
}

/// `s` without its trailing whitespace.
pub open spec fn trim_end_of(s: Seq<char>) -> Seq<char>
    decreases s.len(),
{
    if s.len() > 0 && is_space(s.last()) { trim_end_of(s.drop_last()) } else { s }
}

/// `s` without its leading and trailing whitespace.
pub open spec fn trimmed(s: Seq<char>) -> Seq<char> {
    trim_end_of(trim_start_of(s))
}

/// Relies on std's `str::to_lowercase`: the result depends on the characters alone.
#[verifier::external_body]
pub(crate) fn to_lower(s: &str) -> (r: String)
    ensures
        r@ == lower_of(s@),
{
    s.to_lowercase()
}

/// Relies on std's `str::trim`: it removes leading and trailing characters
/// with the Unicode `White_Space` property.
#[verifier::external_body]
pub(crate) fn trim_text(s: &str) -> (r: String)
    ensures
        r@ == trimmed(s@),
{
    s.trim().to_string()
}

/// Whether `k` occurs in `s` at index `i`.
pub fn occurs_at_exec(s: &str, k: &str, i: usize) -> (r: bool)
    ensures
        r == occurs_at(s@, k@, i as int),
{
    let n = s.unicode_len();
    let m = k.unicode_len();
    if i > n || m > n - i {
        return false;
    }
    let mut j: usize = 0;
    while j < m
        invariant
            n == s@.len(),
            m == k@.len(),
            i + m <= n,
            j <= m,
            forall|t: int| 0 <= t < j ==> s@[i + t] == k@[t],
        decreases m - j,
    {
        if s.get_char(i + j) != k.get_char(j) {
            assert(s@.subrange(i as int, i + m)[j as int] != k@[j as int]);
            return false;
        }
        j = j + 1;
    }
    assert(s@.subrange(i as int, i + m) =~= k@);
    true
}

/// The first index at which `k` occurs in `s`, counted in characters.
pub fn find_chars(s: &str, k: &str) -> (r: Option<usize>)
    ensures
        match r {
            Some(i) => first_occurrence(s@, k@, i as int),
            None => !contains(s@, k@),
        },
{
    let n = s.unicode_len();
    let mut i: usize = 0;
    while i < n
        invariant
            n == s@.len(),
            i <= n,
            forall|j: int| 0 <= j < i ==> !occurs_at(s@, k@, j),
        decreases n - i,
    {
        if occurs_at_exec(s, k, i) {
            return Some(i);
        }
        i = i + 1;
    }
    if occurs_at_exec(s, k, n) {
        return Some(n);
    }
    assert forall|j: int| !occurs_at(s@, k@, j) by {
        if occurs_at(s@, k@, j) {
            assert(j <= n);
        }
    }
    None
}

/// Whether `k` is a substring of `s`.
pub fn contains_str(s: &str, k: &str) -> (r: bool)
    ensures
        r == contains(s@, k@),
{
    match find_chars(s, k) {
        Some(i) => true,
        None => false,
    }
}

/// The characters of an optional string.
pub open spec fn opt_view(o: Option<String>) -> Option<Seq<char>> {
    match o {
        Some(s) => Some(s@),
        None => None,
    }
}

/// The characters of an optional string slice.
pub open spec fn opt_str_view(o: Option<&str>) -> Option<Seq<char>> {
    match o {
        Some(s) => Some(s@),
        None => None,
    }
}

/// A copy of an optional string.
pub fn clone_opt(o: &Option<String>) -> (r: Option<String>)
    ensures
        opt_view(r) == opt_view(*o),
{
    match o {
        Some(s) => Some(s.clone()),
        None => None,
    }
}

/// An owned copy of an optional string slice.
pub fn owned_opt(o: Option<&str>) -> (r: Option<String>)
    ensures
        opt_view(r) == opt_str_view(o),
{
    match o {
        Some(s) => Some(String::from_str(s)),
        None => None,
    }
}

/// The characters of `s`, one by one.
pub fn chars_of(s: &str) -> (r: Vec<char>)
    ensures
        r@ == s@,
{
    let n = s.unicode_len();
    let mut out: Vec<char> = Vec::new();
    let mut i: usize = 0;
    while i < n
        invariant
            n == s@.len(),
            i <= n,
            out@ == s@.subrange(0, i as int),
        decreases n - i,
    {
        out.push(s.get_char(i));
        assert(out@ =~= s@.subrange(0, i + 1));
        i = i + 1;
    }
    assert(s@.subrange(0, n as int) =~= s@);
    out
}

/// Two first occurrences are the same index.
pub proof fn lemma_first_occurrence_unique(s: Seq<char>, k: Seq<char>, i: int, j: int)
    requires
        first_occurrence(s, k, i),
        first_occurrence(s, k, j),
    ensures
        i == j,
{
}

/// `a` sorts before `b`, or equals it, in code-point order (the order of
/// their UTF-8 bytes).
pub open spec fn text_le(a: Seq<char>, b: Seq<char>) -> bool
    decreases a.len(),
{
    if a.len() == 0 {
        true
    } else if b.len() == 0 {
        false
    } else if a[0] != b[0] {
        a[0] < b[0]
    } else {
        text_le(a.drop_first(), b.drop_first())
    }
}

/// Whether `a` sorts before `b` or equals it.
pub fn text_le_exec(a: &str, b: &str) -> (r: bool)
    ensures
        r == text_le(a@, b@),
{
    let n = a.unicode_len();
    let m = b.unicode_len();
    let mut i: usize = 0;
    assert(a@.skip(0) =~= a@);
    assert(b@.skip(0) =~= b@);
    while i < n && i < m
        invariant
            n == a@.len(),
            m == b@.len(),
            i <= n && i <= m,
            text_le(a@, b@) == text_le(a@.skip(i as int), b@.skip(i as int)),
        decreases n - i,
    {
        let x = a.get_char(i);
        let y = b.get_char(i);
        assert(a@.skip(i as int)[0] == x && b@.skip(i as int)[0] == y);
        if x != y {
            return x < y;
        }
        assert(a@.skip(i as int).drop_first() =~= a@.skip(i + 1));
        assert(b@.skip(i as int).drop_first() =~= b@.skip(i + 1));
        i = i + 1;
    }
    assert(i == n ==> a@.skip(i as int).len() == 0);
    i == n
}

/// `x` placed into `s` after every element that sorts before it or equals
/// it, counting from the end.
pub open spec fn insert_sorted(s: Seq<Seq<char>>, x: Seq<char>) -> Seq<Seq<char>>
    decreases s.len(),
{
    if s.len() == 0 {
        seq![x]
    } else if text_le(s.last(), x) {
        s.push(x)
    } else {
        insert_sorted(s.drop_last(), x).push(s.last())
    }
}

/// The texts in code-point order; equal texts keep their order.
pub open spec fn sorted_texts(s: Seq<Seq<char>>) -> Seq<Seq<char>>
    decreases s.len(),
{
    if s.len() == 0 {
        Seq::empty()
    } else {
        insert_sorted(sorted_texts(s.drop_last()), s.last())
    }
}

/// Sorts texts in code-point order, keeping equal texts in their order.
pub fn sort_texts(v: Vec<String>) -> (r: Vec<String>)
    ensures
        r@.map_values(|t: String| t@) == sorted_texts(v@.map_values(|t: String| t@)),
{
    let ghost src = v@.map_values(|t: String| t@);
    let mut out: Vec<String> = Vec::new();
    let mut rest = v;
    let mut taken: usize = 0;
    let n = rest.len();
    let mut items: Vec<String> = Vec::new();
    // Reverse once so that popping yields the texts in their order.
    while rest.len() > 0
        invariant
            items@.len() + rest@.len() == n,
            n == src.len(),
            forall|k: int| 0 <= k < rest@.len() ==> #[trigger] rest@[k]@ == src[k],
            forall|k: int| 0 <= k < items@.len() ==> #[trigger] items@[k]@ == src[n - 1 - k],
        decreases rest@.len(),
    {
        let t = rest.pop().unwrap();
        items.push(t);
    }
    while items.len() > 0
        invariant
            taken + items@.len() == n,
            n == src.len(),
            forall|k: int| 0 <= k < items@.len() ==> #[trigger] items@[k]@ == src[n - 1 - k],
            out@.map_values(|t: String| t@) == sorted_texts(src.subrange(0, taken as int)),
        decreases items@.len(),
    {
        let x = items.pop().unwrap();
        assert(x@ == src[taken as int]);
        assert(src.subrange(0, taken + 1).drop_last() =~= src.subrange(0, taken as int));
        let ghost o = out@.map_values(|t: String| t@);
        let mut j = out.len();
        assert(o.subrange(0, j as int) =~= o);
        assert(o.subrange(j as int, o.len() as int) =~= Seq::<Seq<char>>::empty());
        while j > 0 && !text_le_exec(out[j - 1].as_str(), x.as_str())
            invariant
                o == out@.map_values(|t: String| t@),
                j <= o.len(),
                insert_sorted(o, x@) == insert_sorted(o.subrange(0, j as int), x@) + o.subrange(j as int, o.len() as int),
            decreases j,
        {
            let ghost p = o.subrange(0, j as int);
            assert(p.drop_last() =~= o.subrange(0, j - 1));
            assert(p.last() == o[j - 1]);
            assert(insert_sorted(o.subrange(0, j - 1), x@).push(o[j - 1]) + o.subrange(j as int, o.len() as int)
                =~= insert_sorted(o.subrange(0, j - 1), x@) + o.subrange(j - 1, o.len() as int));
            j = j - 1;
        }
        proof {
            if j > 0 {
                assert(o.subrange(0, j as int).last() == o[j - 1]);
            }
        }
        out.insert(j, x);
        assert(out@.map_values(|t: String| t@) =~= insert_sorted(o.subrange(0, j as int), x@) + o.subrange(j as int, o.len() as int));
        taken = taken + 1;
    }
    assert(src.subrange(0, n as int) =~= src);
    out
}

proof fn lemma_insert_sorted_len(s: Seq<Seq<char>>, x: Seq<char>)
    ensures
        insert_sorted(s, x).len() == s.len() + 1,
    decreases s.len(),
{
    if s.len() > 0 && !text_le(s.last(), x) {
        lemma_insert_sorted_len(s.drop_last(), x);
    }
}

/// Sorting keeps the number of texts.
pub proof fn lemma_sorted_texts_len(s: Seq<Seq<char>>)
    ensures
        sorted_texts(s).len() == s.len(),
    decreases s.len(),
{
    if s.len() > 0 {
        lemma_sorted_texts_len(s.drop_last());
        lemma_insert_sorted_len(sorted_texts(s.drop_last()), s.last());
    }
}

proof fn lemma_insert_sorted_members(s: Seq<Seq<char>>, x: Seq<char>)
    ensures
        forall|k: int| 0 <= k < insert_sorted(s, x).len() ==>
            #[trigger] insert_sorted(s, x)[k] == x || s.contains(insert_sorted(s, x)[k]),
    decreases s.len(),
{
    lemma_insert_sorted_len(s, x);
    if s.len() > 0 {
        if text_le(s.last(), x) {
            assert forall|k: int| 0 <= k < insert_sorted(s, x).len() implies
                #[trigger] insert_sorted(s, x)[k] == x || s.contains(insert_sorted(s, x)[k]) by {
                if k < s.len() {
                    assert(insert_sorted(s, x)[k] == s[k]);
                }
            }
        } else {
            let p = s.drop_last();
            lemma_insert_sorted_members(p, x);
            assert forall|k: int| 0 <= k < insert_sorted(s, x).len() implies
                #[trigger] insert_sorted(s, x)[k] == x || s.contains(insert_sorted(s, x)[k]) by {
                let t = insert_sorted(s, x)[k];
                if k < insert_sorted(p, x).len() {
                    assert(t == insert_sorted(p, x)[k]);
                    if t != x {
                        let i = choose|i: int| 0 <= i < p.len() && p[i] == t;
                        assert(s[i] == t);
                    }
                } else {
                    assert(t == s[s.len() - 1]);
                }
            }
        }
    }
}

/// Every text of the sorted sequence is one of the input texts.
pub proof fn lemma_sorted_texts_keys(s: Seq<Seq<char>>)
    ensures
        forall|k: int| 0 <= k < sorted_texts(s).len() ==> s.contains(#[trigger] sorted_texts(s)[k]),
    decreases s.len(),
{
    if s.len() > 0 {
        let p = s.drop_last();
        lemma_sorted_texts_keys(p);
        lemma_insert_sorted_members(sorted_texts(p), s.last());
        assert forall|k: int| 0 <= k < sorted_texts(s).len() implies s.contains(#[trigger] sorted_texts(s)[k]) by {
            let t = sorted_texts(s)[k];
            if t == s.last() {
                assert(s[s.len() - 1] == t);
            } else {
                assert(sorted_texts(p).contains(t));
                let j = choose|j: int| 0 <= j < sorted_texts(p).len() && sorted_texts(p)[j] == t;
                assert(p.contains(t));
                let i = choose|i: int| 0 <= i < p.len() && p[i] == t;
                assert(s[i] == t);
            }
        }
    }
}

proof fn lemma_text_le_total(a: Seq<char>, b: Seq<char>)
    ensures
        text_le(a, b) || text_le(b, a),
    decreases a.len(),
{
    if a.len() > 0 && b.len() > 0 {
        if a[0] == b[0] {
            lemma_text_le_total(a.drop_first(), b.drop_first());
        }
    }
}

proof fn lemma_text_le_trans(a: Seq<char>, b: Seq<char>, c: Seq<char>)
    requires
        text_le(a, b),
        text_le(b, c),
    ensures
        text_le(a, c),
    decreases a.len(),
{
    if a.len() > 0 && b.len() > 0 && c.len() > 0 && a[0] == b[0] && b[0] == c[0] {
        lemma_text_le_trans(a.drop_first(), b.drop_first(), c.drop_first());
    }
}

/// Each text sorts before or equals every later one.
pub open spec fn is_sorted(s: Seq<Seq<char>>) -> bool {
    forall|i: int, j: int| 0 <= i < j < s.len() ==> text_le(#[trigger] s[i], #[trigger] s[j])
}

proof fn lemma_insert_sorted_sorted(s: Seq<Seq<char>>, x: Seq<char>)
    requires
        is_sorted(s),
    ensures
        is_sorted(insert_sorted(s, x)),
    decreases s.len(),
{
    lemma_insert_sorted_len(s, x);
    lemma_insert_sorted_members(s, x);
    if s.len() > 0 {
        let r = insert_sorted(s, x);
        if text_le(s.last(), x) {
            assert forall|i: int, j: int| 0 <= i < j < r.len() implies text_le(#[trigger] r[i], #[trigger] r[j]) by {
                if j == s.len() {
                    if i < s.len() - 1 {
                        lemma_text_le_trans(s[i], s[s.len() - 1], x);
                    }
                } else {
                    assert(r[i] == s[i] && r[j] == s[j]);
                }
            }
        } else {
            let p = s.drop_last();
            assert(is_sorted(p)) by {
                assert forall|i: int, j: int| 0 <= i < j < p.len() implies text_le(#[trigger] p[i], #[trigger] p[j]) by {
                    assert(p[i] == s[i] && p[j] == s[j]);
                }
            }
            lemma_insert_sorted_sorted(p, x);
            lemma_insert_sorted_members(p, x);
            lemma_insert_sorted_len(p, x);
            lemma_text_le_total(s.last(), x);
            let q = insert_sorted(p, x);
            assert forall|i: int, j: int| 0 <= i < j < r.len() implies text_le(#[trigger] r[i], #[trigger] r[j]) by {
                if j == r.len() - 1 {
                    assert(r[j] == s.last());
                    assert(r[i] == q[i]);
                    if q[i] != x {
                        let k = choose|k: int| 0 <= k < p.len() && p[k] == q[i];
                        assert(s[k] == p[k]);
                    }
                } else {
                    assert(r[i] == q[i] && r[j] == q[j]);
                }
            }
        }
    }
}

/// The sorted texts are in code-point order.
pub proof fn lemma_sorted_texts_sorted(s: Seq<Seq<char>>)
    ensures
        is_sorted(sorted_texts(s)),
    decreases s.len(),
{
    if s.len() > 0 {
        lemma_sorted_texts_sorted(s.drop_last());
        lemma_insert_sorted_sorted(sorted_texts(s.drop_last()), s.last());
    }
}

/// Whether two strings hold the same characters.
pub fn same_text(a: &str, b: &str) -> (r: bool)
    ensures
        r == (a@ == b@),
{
    if a.unicode_len() != b.unicode_len() {
        return false;
    }
    let r = occurs_at_exec(a, b, 0);
    assert(a@.subrange(0, b@.len() as int) =~= a@);

    r
}

/// `s` without its trailing `'/'` characters.
pub open spec fn without_trailing_slashes(s: Seq<char>) -> Seq<char>
    decreases s.len(),
{
    if s.len() > 0 && s.last() == '/' {
        without_trailing_slashes(s.drop_last())
    } else {
        s
    }
}

/// `s` with each non-overlapping occurrence of `from`, scanning left to
/// right, replaced by `to`.
pub open spec fn replaced(s: Seq<char>, from: Seq<char>, to: Seq<char>) -> Seq<char>
    decreases s.len(),
{
    if from.len() == 0 || s.len() == 0 {
        s
    } else if from.len() <= s.len() && s.subrange(0, from.len() as int) == from {
        to + replaced(s.skip(from.len() as int), from, to)
    } else {
        seq![s[0]] + replaced(s.skip(1), from, to)
    }
}

/// Removes the trailing `'/'` characters of `s`.
pub fn trim_trailing_slashes(s: &str) -> (r: String)
    ensures
        r@ == without_trailing_slashes(s@),
{
    let mut j = s.unicode_len();
    assert(s@.subrange(0, j as int) =~= s@);
    while j > 0 && s.get_char(j - 1) == '/'
        invariant
            j <= s@.len(),
            without_trailing_slashes(s@) == without_trailing_slashes(s@.subrange(0, j as int)),
        decreases j,
    {
        assert(s@.subrange(0, j as int).drop_last() =~= s@.subrange(0, j - 1));
        j = j - 1;
    }
    assert(s@.subrange(0, j as int).len() == 0 || s@.subrange(0, j as int).last() != '/');
    String::from_str(s.substring_char(0, j))
}

/// Replaces each non-overlapping occurrence of `from` in `s` by `to`.
pub fn replace_text(s: &str, from: &str, to: &str) -> (r: String)
    requires
        from@.len() > 0,
    ensures
        r@ == replaced(s@, from@, to@),
{
    let n = s.unicode_len();
    let m = from.unicode_len();
    let mut out = String::new();
    let mut i: usize = 0;
    assert(s@.skip(0) =~= s@);
    while i < n
        invariant
            n == s@.len(),
            m == from@.len(),
            m > 0,
            i <= n,
            replaced(s@, from@, to@) == out@ + replaced(s@.skip(i as int), from@, to@),
        decreases n - i,
    {
        let ghost rest = s@.skip(i as int);
        if occurs_at_exec(s, from, i) {
            assert(rest.subrange(0, m as int) =~= s@.subrange(i as int, i + m));
            assert(rest.skip(m as int) =~= s@.skip(i + m));
            let ghost before = out@;
            out.append(to);
            assert(before + replaced(rest, from@, to@) =~= out@ + replaced(s@.skip(i + m), from@, to@));
            i = i + m;
        } else {
            assert(rest.skip(1) =~= s@.skip(i + 1));
            assert(m <= rest.len() ==> rest.subrange(0, m as int) =~= s@.subrange(i as int, i + m));
            let c = s.substring_char(i, i + 1);
            assert(c@ =~= seq![rest[0]]);
            let ghost before = out@;
            out.append(c);
            assert(before + replaced(rest, from@, to@) =~= out@ + replaced(s@.skip(i + 1), from@, to@));
            i = i + 1;
        }
    }
    out
}

} // verus!
