//! Character-level string operations with exact specifications.
use vstd::prelude::*;
use vstd::string::*;

verus! {

broadcast use vstd::string::group_string_axioms;

/// Appends one character to a string.
/// Trusted: `String::push`, documented to append the given char to the end.
#[verifier::external_body]
pub(crate) fn push_char(s: &mut String, c: char)
    ensures
        final(s)@ == old(s)@.push(c),
{
    s.push(c);
}

/// The characters of a string slice, in order.
pub fn chars_of(s: &str) -> (v: Vec<char>)
    ensures
        v@ == s@,
{
    let mut v: Vec<char> = Vec::new();
    for c in it: s.chars()
        invariant
            v@ == it.seq().take(it.index()),
    {
        v.push(c);
    }
    v
}

/// The string made of the given characters.
pub fn string_of(v: &Vec<char>) -> (s: String)
    ensures
        s@ == v@,
{
    let mut s = String::new();
    let mut i: usize = 0;
    while i < v.len()
        invariant
            i <= v.len(),
            s@ == v@.take(i as int),
        decreases v.len() - i,
    {
        push_char(&mut s, v[i]);
        assert(v@.take(i + 1) == v@.take(i as int).push(v@[i as int]));
        i = i + 1;
    }
    assert(v@.take(v.len() as int) == v@);
    s
}


/// The Unicode `White_Space` property, which `char::is_whitespace` and
/// `str::trim` go by.
pub open spec fn is_ws(c: char) -> bool {
    let u = c as u32;
    ||| 0x09 <= u <= 0x0d
    ||| u == 0x20
    ||| u == 0x85
    ||| u == 0xa0
    ||| u == 0x1680
    ||| 0x2000 <= u <= 0x200a
    ||| u == 0x2028
    ||| u == 0x2029
    ||| u == 0x202f
    ||| u == 0x205f
    ||| u == 0x3000
}

/// Removes leading whitespace.
pub open spec fn trim_start(s: Seq<char>) -> Seq<char>
    decreases s.len(),
{
    if s.len() > 0 && is_ws(s[0]) {
        trim_start(s.drop_first())
    } else {
        s
    }
}

/// Removes trailing whitespace.
pub open spec fn trim_end(s: Seq<char>) -> Seq<char>
    decreases s.len(),
{
    if s.len() > 0 && is_ws(s.last()) {
        trim_end(s.drop_last())
    } else {
        s
    }
}

/// Removes leading and trailing whitespace, as `str::trim` does.
pub open spec fn trim(s: Seq<char>) -> Seq<char> {
    trim_end(trim_start(s))
}

/// Every character is whitespace (so the trimmed string is empty).
pub open spec fn is_blank(s: Seq<char>) -> bool {
    forall|i: int| 0 <= i < s.len() ==> is_ws(#[trigger] s[i])
}

/// Whether `c` has the Unicode `White_Space` property.
pub fn is_whitespace(c: char) -> (b: bool)
    ensures
        b == is_ws(c),
{
    let u = c as u32;
    (0x09 <= u && u <= 0x0d) || u == 0x20 || u == 0x85 || u == 0xa0 || u == 0x1680 || (0x2000
        <= u && u <= 0x200a) || u == 0x2028 || u == 0x2029 || u == 0x202f || u == 0x205f || u
        == 0x3000
}

proof fn lemma_trim_start_skip(s: Seq<char>, k: int)
    requires
        0 <= k <= s.len(),
        forall|j: int| 0 <= j < k ==> is_ws(#[trigger] s[j]),
    ensures
        trim_start(s) == trim_start(s.skip(k)),
    decreases k,
{
    if k > 0 {
        assert(s.drop_first().skip(k - 1) == s.skip(k));
        assert forall|j: int| 0 <= j < k - 1 implies is_ws(#[trigger] s.drop_first()[j]) by {
            assert(s.drop_first()[j] == s[j + 1]);
        }
        assert(is_ws(s[0]));
        lemma_trim_start_skip(s.drop_first(), k - 1);
    } else {
        assert(s.skip(0) == s);
    }
}

proof fn lemma_trim_end_take(s: Seq<char>, k: int)
    requires
        0 <= k <= s.len(),
        forall|j: int| k <= j < s.len() ==> is_ws(#[trigger] s[j]),
    ensures
        trim_end(s) == trim_end(s.take(k)),
    decreases s.len() - k,
{
    if k < s.len() {
        assert(s.drop_last().take(k) == s.take(k));
        assert forall|j: int| k <= j < s.drop_last().len() implies is_ws(
            #[trigger] s.drop_last()[j],
        ) by {
            assert(s.drop_last()[j] == s[j]);
        }
        assert(is_ws(s[s.len() - 1]));
        lemma_trim_end_take(s.drop_last(), k);
    } else {
        assert(s.take(k) == s);
    }
}

/// The trimmed string is empty exactly when every character is whitespace.
pub proof fn lemma_trim_empty_iff_blank(s: Seq<char>)
    ensures
        trim(s).len() == 0 <==> is_blank(s),
    decreases s.len(),
{
    if s.len() > 0 && is_ws(s[0]) {
        lemma_trim_empty_iff_blank(s.drop_first());
        if is_blank(s.drop_first()) {
            assert forall|i: int| 0 <= i < s.len() implies is_ws(#[trigger] s[i]) by {
                if i > 0 {
                    assert(s[i] == s.drop_first()[i - 1]);
                }
            }
        }
        if is_blank(s) {
            assert forall|i: int| 0 <= i < s.drop_first().len() implies is_ws(
                #[trigger] s.drop_first()[i],
            ) by {
                assert(s.drop_first()[i] == s[i + 1]);
            }
        }
    } else if s.len() > 0 {
        lemma_trim_end_nonempty(s);
    }
}

proof fn lemma_trim_end_nonempty(s: Seq<char>)
    requires
        s.len() > 0,
        !is_ws(s[0]),
    ensures
        trim_end(s).len() > 0,
        trim_end(s)[0] == s[0],
    decreases s.len(),
{
    if is_ws(s.last()) {
        lemma_trim_end_nonempty(s.drop_last());
    }
}

/// Scans a character vector for its first and last non-whitespace positions:
/// the trimmed content is `v[start..end]`.
fn trim_bounds(v: &Vec<char>) -> (r: (usize, usize))
    ensures
        r.0 <= r.1 <= v.len(),
        trim(v@) == v@.subrange(r.0 as int, r.1 as int),
{
    let mut a: usize = 0;
    while a < v.len() && is_whitespace(v[a])
        invariant
            a <= v.len(),
            forall|j: int| 0 <= j < a ==> is_ws(#[trigger] v@[j]),
        decreases v.len() - a,
    {
        a = a + 1;
    }
    proof {
        lemma_trim_start_skip(v@, a as int);
    }
    let ghost rest = v@.skip(a as int);
    assert(trim_start(rest) == rest) by {
        if rest.len() > 0 {
            assert(rest[0] == v@[a as int]);
        }
    }
    let mut b: usize = v.len();
    while b > a && is_whitespace(v[b - 1])
        invariant
            a <= b <= v.len(),
            rest == v@.skip(a as int),
            forall|j: int| b - a <= j < rest.len() ==> is_ws(#[trigger] rest[j]),
        decreases b,
    {
        assert(rest[b - 1 - a] == v@[b - 1]);
        b = b - 1;
    }
    proof {
        lemma_trim_end_take(rest, b - a);
        assert(rest.take(b - a) == v@.subrange(a as int, b as int));
        if b > a {
            assert(rest.take(b - a).last() == v@[b - 1]);
        }
    }
    (a, b)
}

/// The string with leading and trailing whitespace removed (`str::trim`).
pub fn trim_str(s: &str) -> (r: String)
    ensures
        r@ == trim(s@),
{
    let v = chars_of(s);
    let (a, b) = trim_bounds(&v);
    let sub = slice_chars(&v, a, b);
    string_of(&sub)
}

/// Whether the string is empty once trimmed (`s.trim().is_empty()`).
pub fn is_blank_str(s: &str) -> (b: bool)
    ensures
        b == (trim(s@).len() == 0),
        b == is_blank(s@),
{
    let v = chars_of(s);
    let (a, b) = trim_bounds(&v);
    proof {
        lemma_trim_empty_iff_blank(s@);
    }
    a == b
}

/// The characters `v[a..b]`.
pub fn slice_chars(v: &Vec<char>, a: usize, b: usize) -> (r: Vec<char>)
    requires
        a <= b <= v.len(),
    ensures
        r@ == v@.subrange(a as int, b as int),
{
    let mut r: Vec<char> = Vec::new();
    let mut i: usize = a;
    while i < b
        invariant
            a <= i <= b <= v.len(),
            r@ == v@.subrange(a as int, i as int),
        decreases b - i,
    {
        r.push(v[i]);
        assert(v@.subrange(a as int, i + 1) == v@.subrange(a as int, i as int).push(v@[i as int]));
        i = i + 1;
    }
    r
}


/// `p` occurs in `s` starting at position `i`.
pub open spec fn occurs_at(s: Seq<char>, p: Seq<char>, i: int) -> bool {
    0 <= i && i + p.len() <= s.len() && s.subrange(i, i + p.len()) == p
}

/// `p` occurs somewhere in `s` (`str::contains`).
pub open spec fn contains(s: Seq<char>, p: Seq<char>) -> bool {
    exists|i: int| occurs_at(s, p, i)
}

/// `s` begins with `p` (`str::starts_with`).
pub open spec fn starts_with(s: Seq<char>, p: Seq<char>) -> bool {
    occurs_at(s, p, 0)
}

/// Every non-overlapping occurrence of `pat`, scanning from the left,
/// replaced by `rep` (`str::replace` with a non-empty pattern).
pub open spec fn replace(s: Seq<char>, pat: Seq<char>, rep: Seq<char>) -> Seq<char>
    decreases s.len(),
{
    if s.len() == 0 {
        s
    } else if pat.len() > 0 && starts_with(s, pat) {
        rep + replace(s.skip(pat.len() as int), pat, rep)
    } else {
        seq![s[0]] + replace(s.drop_first(), pat, rep)
    }
}

/// Whether `p` occurs in `v` at position `i`.
pub fn matches_at(v: &Vec<char>, p: &Vec<char>, i: usize) -> (b: bool)
    ensures
        b == occurs_at(v@, p@, i as int),
{
    if i > v.len() || p.len() > v.len() - i {
        return false;
    }
    let mut j: usize = 0;
    while j < p.len()
        invariant
            i + p.len() <= v.len(),
            j <= p.len(),
            forall|k: int| 0 <= k < j ==> v@[i + k] == p@[k],
        decreases p.len() - j,
    {
        if v[i + j] != p[j] {
            assert(v@.subrange(i as int, i + p.len())[j as int] != p@[j as int]);
            return false;
        }
        j = j + 1;
    }
    assert(v@.subrange(i as int, i + p.len()) == p@);
    true
}

/// Whether `p` occurs anywhere in `v`.
pub fn contains_chars(v: &Vec<char>, p: &Vec<char>) -> (b: bool)
    ensures
        b == contains(v@, p@),
{
    if p.len() > v.len() {
        return false;
    }
    let mut i: usize = 0;
    loop
        invariant
            p.len() <= v.len(),
            i <= v.len() - p.len(),
            forall|k: int| 0 <= k < i ==> !occurs_at(v@, p@, k),
        decreases v.len() - p.len() - i,
    {
        if matches_at(v, p, i) {
            return true;
        }
        if i == v.len() - p.len() {
            assert forall|k: int| !occurs_at(v@, p@, k) by {
                if 0 <= k < i {
                }
            }
            return false;
        }
        i = i + 1;
    }
}

/// Whether `p` occurs in `s` (`str::contains`).
pub fn contains_str(s: &str, p: &str) -> (b: bool)
    ensures
        b == contains(s@, p@),
{
    let v = chars_of(s);
    let q = chars_of(p);
    contains_chars(&v, &q)
}

/// Whether `s` begins with `p` (`str::starts_with`).
pub fn starts_with_str(s: &str, p: &str) -> (b: bool)
    ensures
        b == starts_with(s@, p@),
{
    let v = chars_of(s);
    let q = chars_of(p);
    matches_at(&v, &q, 0)
}

/// `replace` on character vectors.
#[verifier::spinoff_prover]
#[verifier::rlimit(40)]
pub fn replace_chars(v: &Vec<char>, p: &Vec<char>, r: &Vec<char>) -> (out: Vec<char>)
    requires
        p.len() > 0,
    ensures
        out@ == replace(v@, p@, r@),
{
    let mut out: Vec<char> = Vec::new();
    let mut i: usize = 0;
    assert(v@.skip(0) == v@);
    while i < v.len()
        invariant
            p.len() > 0,
            i <= v.len(),
            replace(v@, p@, r@) == out@ + replace(v@.skip(i as int), p@, r@),
        decreases v.len() - i,
    {
        let ghost t = v@.skip(i as int);
        if matches_at(v, p, i) {
            assert(t.subrange(0, p.len() as int) == v@.subrange(i as int, i + p.len()));
            assert(t.skip(p.len() as int) == v@.skip(i + p.len()));
            assert(starts_with(t, p@));
            assert(replace(t, p@, r@) == r@ + replace(t.skip(p.len() as int), p@, r@));
            let mut k: usize = 0;
            let ghost before = out@;
            while k < r.len()
                invariant
                    k <= r.len(),
                    out@ == before + r@.take(k as int),
                decreases r.len() - k,
            {
                out.push(r[k]);
                assert(r@.take(k + 1) == r@.take(k as int).push(r@[k as int]));
                k = k + 1;
            }
            assert(r@.take(r.len() as int) == r@);
            assert(before + (r@ + replace(t.skip(p.len() as int), p@, r@)) == (before + r@)
                + replace(t.skip(p.len() as int), p@, r@));
            i = i + p.len();
        } else {
            assert(t[0] == v@[i as int]);
            assert(t.drop_first() == v@.skip(i + 1));
            assert(p@.len() <= t.len() ==> t.subrange(0, p@.len() as int) == v@.subrange(
                i as int,
                i + p@.len(),
            ));
            assert(!starts_with(t, p@));
            assert(replace(t, p@, r@) == seq![t[0]] + replace(t.drop_first(), p@, r@));
            let ghost before = out@;
            out.push(v[i]);
            assert(before + (seq![v@[i as int]] + replace(t.drop_first(), p@, r@)) == before.push(
                v@[i as int],
            ) + replace(t.drop_first(), p@, r@));
            i = i + 1;
        }
    }
    assert(v@.skip(i as int).len() == 0);
    assert(out@ + seq![] == out@);
    out
}

/// `s` with every occurrence of the non-empty pattern `from` replaced by `to`
/// (`str::replace`).
pub fn replace_str(s: &str, from: &str, to: &str) -> (out: String)
    requires
        from@.len() > 0,
    ensures
        out@ == replace(s@, from@, to@),
{
    let v = chars_of(s);
    let p = chars_of(from);
    let r = chars_of(to);
    let o = replace_chars(&v, &p, &r);
    string_of(&o)
}

/// Position of the first occurrence of `c` in `v`.
pub fn find_char(v: &Vec<char>, c: char) -> (r: Option<usize>)
    ensures
        r matches Some(i) ==> v@.index_of_first(c) == Some(i as int),
        r is None ==> v@.index_of_first(c) is None,
{
    proof {
        v@.index_of_first_ensures(c);
    }
    let mut i: usize = 0;
    while i < v.len()
        invariant
            i <= v.len(),
            forall|k: int| 0 <= k < i ==> v@[k] != c,
        decreases v.len() - i,
    {
        if v[i] == c {
            proof {
                v@.index_of_first_ensures(c);
                assert(v@[i as int] == c);
                assert(v@.contains(c));
                let j = v@.index_of_first(c).unwrap();
                if j < i {
                    assert(v@[j] != c);
                } else if j > i {
                    assert(0 <= i < j < v@.len());
                    assert(v@[i as int] != c);
                }
            }
            return Some(i);
        }
        i = i + 1;
    }
    proof {
        v@.index_of_first_ensures(c);
        if v@.contains(c) {
            let j = choose|j: int| 0 <= j < v@.len() && v@[j] == c;
            assert(v@[j] != c);
        }
    }
    None
}


/// The pieces of `s` between occurrences of `c` (`str::split` on a char):
/// `n` separators give `n + 1` pieces, empty ones included.
pub open spec fn split(s: Seq<char>, c: char) -> Seq<Seq<char>>
    decreases s.len(),
{
    if s.len() == 0 {
        seq![seq![]]
    } else {
        let r = split(s.drop_last(), c);
        if s.last() == c {
            r.push(seq![])
        } else {
            r.update(r.len() - 1, r.last().push(s.last()))
        }
    }
}

/// The pieces joined with `sep` between neighbours (`[T]::join`).
pub open spec fn join(parts: Seq<Seq<char>>, sep: Seq<char>) -> Seq<char>
    decreases parts.len(),
{
    if parts.len() == 0 {
        seq![]
    } else if parts.len() == 1 {
        parts[0]
    } else {
        join(parts.drop_last(), sep) + sep + parts.last()
    }
}

/// `split` never yields an empty list of pieces.
pub proof fn lemma_split_nonempty(s: Seq<char>, c: char)
    ensures
        split(s, c).len() >= 1,
    decreases s.len(),
{
    if s.len() > 0 {
        lemma_split_nonempty(s.drop_last(), c);
    }
}

/// `c` does not occur in `s`.
pub open spec fn lacks(s: Seq<char>, c: char) -> bool {
    forall|i: int| 0 <= i < s.len() ==> s[i] != c
}

proof fn lemma_split_append_plain(z: Seq<char>, y: Seq<char>, c: char)
    requires
        lacks(y, c),
    ensures
        split(z + y, c) == split(z, c).update(
            split(z, c).len() - 1,
            split(z, c).last() + y,
        ),
    decreases y.len(),
{
    lemma_split_nonempty(z, c);
    let r = split(z, c);
    if y.len() == 0 {
        assert(z + y == z);
        assert(r.last() + y == r.last());
        assert(r.update(r.len() - 1, r.last()) == r);
    } else {
        lemma_split_append_plain(z, y.drop_last(), c);
        assert((z + y).drop_last() == z + y.drop_last());
        assert((z + y).last() == y.last());
        assert(y.last() == y[y.len() - 1]);
        let r2 = split(z + y.drop_last(), c);
        assert(r2.len() == r.len());
        assert(r2.last() == r.last() + y.drop_last());
        assert(r.last() + y.drop_last().push(y.last()) == r.last() + y);
        assert(y.drop_last().push(y.last()) == y);
        assert(r2.update(r2.len() - 1, r2.last().push(y.last())) == r.update(
            r.len() - 1,
            r.last() + y,
        ));
    }
}

/// Splitting pieces joined with `c` gives the pieces back, when none of them
/// holds `c`.
pub proof fn lemma_split_join(parts: Seq<Seq<char>>, c: char)
    requires
        parts.len() >= 1,
        forall|k: int| 0 <= k < parts.len() ==> lacks(#[trigger] parts[k], c),
    ensures
        split(join(parts, seq![c]), c) == parts,
    decreases parts.len(),
{
    if parts.len() == 1 {
        lemma_split_append_plain(seq![], parts[0], c);
        assert(Seq::<char>::empty() + parts[0] == parts[0]);
        assert(split(Seq::<char>::empty(), c) == seq![Seq::<char>::empty()]);
        assert(seq![Seq::<char>::empty()].update(0, Seq::<char>::empty() + parts[0]) == parts);
    } else {
        let init = parts.drop_last();
        assert forall|k: int| 0 <= k < init.len() implies lacks(#[trigger] init[k], c) by {
            assert(init[k] == parts[k]);
        }
        lemma_split_join(init, c);
        let x = join(init, seq![c]);
        let z = x.push(c);
        assert(x + seq![c] == z);
        assert(lacks(parts.last(), c)) by {
            assert(parts.last() == parts[parts.len() - 1]);
        }
        lemma_split_append_plain(z, parts.last(), c);
        assert(z.drop_last() == x);
        assert(split(z, c) == init.push(seq![]));
        assert(Seq::<char>::empty() + parts.last() == parts.last());
        assert(init.push(seq![]).update(init.len() as int, parts.last()) == parts);
    }
}

/// Joining two non-empty lists is joining each and putting `sep` between.
pub proof fn lemma_join_concat(a: Seq<Seq<char>>, b: Seq<Seq<char>>, sep: Seq<char>)
    requires
        a.len() >= 1,
        b.len() >= 1,
    ensures
        join(a + b, sep) == join(a, sep) + sep + join(b, sep),
    decreases b.len(),
{
    if b.len() == 1 {
        assert((a + b).drop_last() == a);
        assert((a + b).last() == b[0]);
    } else {
        lemma_join_concat(a, b.drop_last(), sep);
        assert((a + b).drop_last() == a + b.drop_last());
        assert((a + b).last() == b.last());
    }
}

/// Splits `s` at every `c`.
pub fn split_on(s: &str, c: char) -> (parts: Vec<String>)
    ensures
        parts.deep_view() == split(s@, c),
{
    let v = chars_of(s);
    let mut parts: Vec<String> = Vec::new();
    let mut cur: Vec<char> = Vec::new();
    let mut i: usize = 0;
    assert(v@.take(0) == Seq::<char>::empty());
    while i < v.len()
        invariant
            i <= v.len(),
            split(v@.take(i as int), c) == parts.deep_view().push(cur@),
        decreases v.len() - i,
    {
        let ghost before = parts.deep_view().push(cur@);
        assert(v@.take(i + 1).drop_last() == v@.take(i as int));
        assert(v@.take(i + 1).last() == v@[i as int]);
        if v[i] == c {
            let piece = string_of(&cur);
            parts.push(piece);
            cur = Vec::new();
            assert(parts.deep_view() == before);
            assert(split(v@.take(i + 1), c) == before.push(seq![]));
        } else {
            cur.push(v[i]);
            assert(split(v@.take(i + 1), c) == before.update(
                before.len() - 1,
                before.last().push(v@[i as int]),
            ));
            assert(parts.deep_view().push(cur@) == before.update(
                before.len() - 1,
                before.last().push(v@[i as int]),
            ));
        }
        i = i + 1;
    }
    assert(v@.take(v.len() as int) == v@);
    let last = string_of(&cur);
    parts.push(last);
    assert(parts.deep_view() == split(v@, c));
    parts
}

/// Joins the strings with `sep` between neighbours.
pub fn join_strings(parts: &Vec<String>, sep: &str) -> (out: String)
    ensures
        out@ == join(parts.deep_view(), sep@),
{
    let mut out = String::new();
    let mut i: usize = 0;
    while i < parts.len()
        invariant
            i <= parts.len(),
            out@ == join(parts.deep_view().take(i as int), sep@),
        decreases parts.len() - i,
    {
        let ghost pv = parts.deep_view();
        assert(pv.take(i + 1).drop_last() == pv.take(i as int));
        assert(pv.take(i + 1).last() == parts[i as int]@);
        if i > 0 {
            out.append(sep);
        } else {
            assert(pv.take(1) == seq![parts[0]@]);
        }
        out.append(parts[i].as_str());
        i = i + 1;
    }
    assert(parts.deep_view().take(parts.len() as int) == parts.deep_view());
    out
}

/// The character of a decimal digit.
pub open spec fn digit_char(d: nat) -> char {
    ((48 + d) as u8) as char
}

/// Whether a character is an ASCII decimal digit.
pub open spec fn is_digit(c: char) -> bool {
    48 <= (c as u32) <= 57
}

/// The decimal notation of `n`, without leading zeros.
pub open spec fn decimal(n: nat) -> Seq<char>
    decreases n,
{
    if n < 10 {
        seq![digit_char(n)]
    } else {
        decimal(n / 10).push(digit_char(n % 10))
    }
}

/// `decimal(n)` padded on the left with `'0'` to at least `width` characters
/// (the `{:0w}` format).
pub open spec fn decimal_padded(n: nat, width: nat) -> Seq<char> {
    let d = decimal(n);
    if d.len() < width {
        Seq::new((width - d.len()) as nat, |i: int| '0') + d
    } else {
        d
    }
}

/// The value of a string of decimal digits.
pub open spec fn digits_value(s: Seq<char>) -> nat
    decreases s.len(),
{
    if s.len() == 0 {
        0
    } else {
        digits_value(s.drop_last()) * 10 + ((s.last() as u32) - 48) as nat
    }
}

/// The digits that `from_str` of an unsigned integer reads: an optional
/// leading `+` is dropped.
pub open spec fn unsigned_digits(s: Seq<char>) -> Seq<char> {
    if s.len() > 0 && s[0] == '+' {
        s.drop_first()
    } else {
        s
    }
}

/// What `from_str` of an unsigned integer type whose largest value is `max`
/// gives for `s`: an optional `+`, then at least one ASCII digit and nothing
/// else, with a value that fits.
pub open spec fn parse_unsigned(s: Seq<char>, max: nat) -> Option<nat> {
    let d = unsigned_digits(s);
    if d.len() > 0 && (forall|i: int| 0 <= i < d.len() ==> is_digit(#[trigger] d[i]))
        && digits_value(d) <= max {
        Some(digits_value(d))
    } else {
        None
    }
}

/// All characters of `decimal(n)` are digits.
pub proof fn lemma_decimal_digits(n: nat)
    ensures
        decimal(n).len() >= 1,
        forall|i: int| 0 <= i < decimal(n).len() ==> is_digit(#[trigger] decimal(n)[i]),
    decreases n,
{
    if n >= 10 {
        lemma_decimal_digits(n / 10);
    }
}

/// Reading back the decimal notation of `n` gives `n`.
pub proof fn lemma_decimal_value(n: nat)
    ensures
        digits_value(decimal(n)) == n,
    decreases n,
{
    let d = decimal(n);
    if n >= 10 {
        lemma_decimal_value(n / 10);
        assert(d.drop_last() == decimal(n / 10));
        assert(d.last() == digit_char(n % 10));
        assert(d.last() as u32 == 48 + n % 10);
        assert(digits_value(d) == (n / 10) * 10 + n % 10);
        assert((n / 10) * 10 + n % 10 == n);
    } else {
        assert(d.drop_last().len() == 0);
        assert(digits_value(d.drop_last()) == 0);
        assert(d.last() as u32 == 48 + n);
        assert(digits_value(d) == n);
    }
}

/// Reading a number's decimal notation as an unsigned integer gives the
/// number back, when it fits.
pub proof fn lemma_parse_decimal(n: nat, max: nat)
    requires
        n <= max,
    ensures
        parse_unsigned(decimal(n), max) == Some(n),
{
    lemma_decimal_digits(n);
    lemma_decimal_value(n);
    let d = decimal(n);
    assert(is_digit(d[0]));
    assert(d[0] != '+');
    assert(unsigned_digits(d) == d);
}

/// Leading zeros do not change the value of a string of digits.
proof fn lemma_leading_zeros_value(z: nat, d: Seq<char>)
    ensures
        digits_value(Seq::new(z, |i: int| '0') + d) == digits_value(d),
    decreases d.len(),
{
    let zs = Seq::new(z, |i: int| '0');
    if d.len() == 0 {
        assert(zs + d == zs);
        lemma_zeros_value(z);
    } else {
        lemma_leading_zeros_value(z, d.drop_last());
        assert((zs + d).drop_last() == zs + d.drop_last());
        assert((zs + d).last() == d.last());
    }
}

proof fn lemma_zeros_value(z: nat)
    ensures
        digits_value(Seq::new(z, |i: int| '0')) == 0,
    decreases z,
{
    if z > 0 {
        lemma_zeros_value((z - 1) as nat);
        assert(Seq::new(z, |i: int| '0').drop_last() == Seq::new((z - 1) as nat, |i: int| '0'));
    }
}

/// The zero-padded notation of `n` is all digits, and reads back as `n`.
pub proof fn lemma_decimal_padded_value(n: nat, width: nat)
    ensures
        decimal_padded(n, width).len() >= 1,
        forall|i: int|
            0 <= i < decimal_padded(n, width).len() ==> is_digit(
                #[trigger] decimal_padded(n, width)[i],
            ),
        digits_value(decimal_padded(n, width)) == n,
{
    lemma_decimal_digits(n);
    lemma_decimal_value(n);
    let d = decimal(n);
    if d.len() < width {
        let z = (width - d.len()) as nat;
        lemma_leading_zeros_value(z, d);
        let p = Seq::new(z, |i: int| '0') + d;
        assert forall|i: int| 0 <= i < p.len() implies is_digit(#[trigger] p[i]) by {
            if i >= z {
                assert(p[i] == d[i - z]);
            }
        }
    }
}

/// Two strings that start with digits followed by `sep`, a non-digit, are
/// equal only if the digit runs are.
pub proof fn lemma_digit_runs_equal(a: Seq<char>, b: Seq<char>, sep: char, x: Seq<char>, y: Seq<char>)
    requires
        !is_digit(sep),
        forall|i: int| 0 <= i < a.len() ==> is_digit(#[trigger] a[i]),
        forall|i: int| 0 <= i < b.len() ==> is_digit(#[trigger] b[i]),
        a + seq![sep] + x == b + seq![sep] + y,
    ensures
        a == b,
{
    let s = a + seq![sep] + x;
    let t = b + seq![sep] + y;
    if a.len() < b.len() {
        assert(s[a.len() as int] == sep);
        assert(t[a.len() as int] == b[a.len() as int]);
    } else if b.len() < a.len() {
        assert(t[b.len() as int] == sep);
        assert(s[b.len() as int] == a[b.len() as int]);
    } else {
        assert(a == s.subrange(0, a.len() as int));
        assert(b == t.subrange(0, b.len() as int));
    }
}

/// Names made of a number's decimal notation between a fixed prefix and
/// suffix are equal only for equal numbers.
pub proof fn lemma_decimal_name_injective(pre: Seq<char>, post: Seq<char>, a: nat, b: nat)
    requires
        pre + decimal(a) + post == pre + decimal(b) + post,
    ensures
        a == b,
{
    let x = pre + decimal(a) + post;
    let y = pre + decimal(b) + post;
    let n: int = decimal(a).len() as int;
    assert(decimal(b).len() == n) by {
        assert(x.len() == y.len());
    }
    assert(decimal(a) == x.subrange(pre.len() as int, pre.len() + n as int));
    assert(decimal(b) == y.subrange(pre.len() as int, pre.len() + n as int));
    lemma_decimal_value(a);
    lemma_decimal_value(b);
}

/// Appends the decimal notation of `n`.
pub fn push_decimal(out: &mut String, n: u64)
    ensures
        final(out)@ == old(out)@ + decimal(n as nat),
    decreases n,
{
    if n >= 10 {
        push_decimal(out, n / 10);
    }
    let d: u8 = (n % 10) as u8;
    push_char(out, (48u8 + d) as char);
    assert((48u8 + d) as char == digit_char((n % 10) as nat));
}

/// The decimal notation of `n` (`u64::to_string`).
pub fn u64_to_decimal(n: u64) -> (s: String)
    ensures
        s@ == decimal(n as nat),
{
    let mut s = String::new();
    push_decimal(&mut s, n);
    s
}

/// The decimal notation of `n` (`usize::to_string`).
pub fn usize_to_decimal(n: usize) -> (s: String)
    ensures
        s@ == decimal(n as nat),
{
    u64_to_decimal(n as u64)
}

/// The decimal notation of `n` padded with zeros to three characters
/// (`format!("{:03}", n)`).
pub fn usize_to_decimal3(n: usize) -> (s: String)
    ensures
        s@ == decimal_padded(n as nat, 3),
{
    let d = usize_to_decimal(n);
    let len = chars_of(d.as_str()).len();
    if len >= 3 {
        d
    } else {
        let mut s = String::new();
        let mut k: usize = len;
        while k < 3
            invariant
                len <= k <= 3,
                s@ == Seq::new((k - len) as nat, |i: int| '0'),
            decreases 3 - k,
        {
            push_char(&mut s, '0');
            assert(s@ == Seq::new((k + 1 - len) as nat, |i: int| '0'));
            k = k + 1;
        }
        s.append(d.as_str());
        s
    }
}

proof fn lemma_digits_value_monotone(d: Seq<char>, k: int)
    requires
        0 <= k <= d.len(),
    ensures
        digits_value(d.take(k)) <= digits_value(d),
    decreases d.len() - k,
{
    if k < d.len() {
        assert(d.drop_last().take(k) == d.take(k));
        lemma_digits_value_monotone(d.drop_last(), k);
    } else {
        assert(d.take(k) == d);
    }
}

/// `from_str` for an unsigned integer whose largest value is `max`.
pub fn parse_u64_max(s: &str, max: u64) -> (r: Option<u64>)
    ensures
        r matches Some(v) ==> parse_unsigned(s@, max as nat) == Some(v as nat),
        r is None ==> parse_unsigned(s@, max as nat) is None,
{
    let v = chars_of(s);
    let start: usize = if v.len() > 0 && v[0] == '+' {
        1
    } else {
        0
    };
    let ghost d = unsigned_digits(s@);
    assert(d == v@.skip(start as int));
    if start >= v.len() {
        return None;
    }
    let mut acc: u64 = 0;
    let mut i: usize = start;
    assert(d.take(0) == Seq::<char>::empty());
    while i < v.len()
        invariant
            start <= i <= v.len(),
            d == v@.skip(start as int),
            d == unsigned_digits(s@),
            acc as nat == digits_value(d.take(i - start)),
            acc <= max,
            forall|k: int| 0 <= k < i - start ==> is_digit(#[trigger] d[k]),
        decreases v.len() - i,
    {
        let c = v[i];
        assert(d[i - start] == c);
        if !((c as u32) >= 48 && (c as u32) <= 57) {
            assert(!is_digit(d[i - start]));
            return None;
        }
        let dv: u64 = ((c as u32) - 48) as u64;
        assert(d.take(i - start + 1).drop_last() == d.take(i - start));
        assert(d.take(i - start + 1).last() == c);
        proof {
            lemma_digits_value_monotone(d, i - start + 1);
        }
        assert(digits_value(d.take(i - start + 1)) == acc * 10 + dv);
        match acc.checked_mul(10) {
            Some(m) => match m.checked_add(dv) {
                Some(n) => {
                    if n > max {
                        return None;
                    }
                    acc = n;
                },
                None => {
                    return None;
                },
            },
            None => {
                return None;
            },
        }
        i = i + 1;
    }
    assert(d.take(i - start) == d);
    Some(acc)
}

/// `s.parse::<usize>()`, with `None` for every error.
pub fn parse_usize(s: &str) -> (r: Option<usize>)
    ensures
        r matches Some(v) ==> parse_unsigned(s@, usize::MAX as nat) == Some(v as nat),
        r is None ==> parse_unsigned(s@, usize::MAX as nat) is None,
{
    match parse_u64_max(s, usize::MAX as u64) {
        Some(v) => Some(v as usize),
        None => None,
    }
}

/// `s.parse::<u64>()`, with `None` for every error.
pub fn parse_u64(s: &str) -> (r: Option<u64>)
    ensures
        r matches Some(v) ==> parse_unsigned(s@, u64::MAX as nat) == Some(v as nat),
        r is None ==> parse_unsigned(s@, u64::MAX as nat) is None,
{
    parse_u64_max(s, u64::MAX)
}


/// Whether two strings hold the same characters.
pub fn str_eq(a: &str, b: &str) -> (r: bool)
    ensures
        r == (a@ == b@),
{
    let v = chars_of(a);
    let w = chars_of(b);
    if v.len() != w.len() {
        return false;
    }
    let r = matches_at(&v, &w, 0);
    assert(v@.subrange(0, w@.len() as int) == v@);
    r
}


/// The pieces of `s` between non-overlapping occurrences of the non-empty
/// pattern `pat`, found from the left (`str::split` on a string).
pub open spec fn split_pat(s: Seq<char>, pat: Seq<char>) -> Seq<Seq<char>>
    decreases s.len(),
{
    if s.len() == 0 {
        seq![seq![]]
    } else if pat.len() > 0 && starts_with(s, pat) {
        seq![seq![]] + split_pat(s.skip(pat.len() as int), pat)
    } else {
        let r = split_pat(s.drop_first(), pat);
        r.update(0, seq![s[0]] + r[0])
    }
}

/// The pieces with `c` put in front of the first one.
pub open spec fn prepend_first(c: Seq<char>, r: Seq<Seq<char>>) -> Seq<Seq<char>> {
    r.update(0, c + r[0])
}

/// `split_pat` never yields an empty list of pieces.
pub proof fn lemma_split_pat_nonempty(s: Seq<char>, pat: Seq<char>)
    ensures
        split_pat(s, pat).len() >= 1,
    decreases s.len(),
{
    if s.len() > 0 {
        if pat.len() > 0 && starts_with(s, pat) {
            lemma_split_pat_nonempty(s.skip(pat.len() as int), pat);
        } else {
            lemma_split_pat_nonempty(s.drop_first(), pat);
        }
    }
}

/// Splits `s` at every occurrence of the non-empty pattern `pat`.
#[verifier::spinoff_prover]
#[verifier::rlimit(40)]
pub fn split_str(s: &str, pat: &str) -> (parts: Vec<String>)
    requires
        pat@.len() > 0,
    ensures
        parts.deep_view() == split_pat(s@, pat@),
{
    let v = chars_of(s);
    let p = chars_of(pat);
    let mut parts: Vec<String> = Vec::new();
    let mut cur: Vec<char> = Vec::new();
    let mut i: usize = 0;
    assert(v@.skip(0) == v@);
    assert(prepend_first(seq![], split_pat(v@, p@)) == split_pat(v@, p@)) by {
        lemma_split_pat_nonempty(v@, p@);
        assert(Seq::<char>::empty() + split_pat(v@, p@)[0] == split_pat(v@, p@)[0]);
    }
    assert(parts.deep_view() == Seq::<Seq<char>>::empty());
    while i < v.len()
        invariant
            p@.len() > 0,
            i <= v.len(),
            split_pat(v@, p@) == parts.deep_view() + prepend_first(
                cur@,
                split_pat(v@.skip(i as int), p@),
            ),
        decreases v.len() - i,
    {
        let ghost t = v@.skip(i as int);
        let ghost before = parts.deep_view();
        if matches_at(&v, &p, i) {
            assert(t.subrange(0, p@.len() as int) == v@.subrange(i as int, i + p@.len()));
            assert(t.skip(p@.len() as int) == v@.skip(i + p@.len()));
            let ghost rest = split_pat(t.skip(p@.len() as int), p@);
            proof {
                lemma_split_pat_nonempty(t.skip(p@.len() as int), p@);
            }
            assert(split_pat(t, p@) == seq![Seq::<char>::empty()] + rest);
            assert(prepend_first(cur@, seq![Seq::<char>::empty()] + rest) == seq![cur@] + rest);
            assert(prepend_first(Seq::<char>::empty(), rest) == rest) by {
                assert(Seq::<char>::empty() + rest[0] == rest[0]);
            }
            let piece = string_of(&cur);
            parts.push(piece);
            cur = Vec::new();
            assert(parts.deep_view() == before.push(piece@));
            assert(before + (seq![piece@] + rest) == before.push(piece@) + rest);
            i = i + p.len();
        } else {
            assert(p@.len() <= t.len() ==> t.subrange(0, p@.len() as int) == v@.subrange(
                i as int,
                i + p@.len(),
            ));
            assert(!starts_with(t, p@));
            assert(t[0] == v@[i as int]);
            assert(t.drop_first() == v@.skip(i + 1));
            let ghost r = split_pat(t.drop_first(), p@);
            proof {
                lemma_split_pat_nonempty(t.drop_first(), p@);
            }
            assert(split_pat(t, p@) == r.update(0, seq![t[0]] + r[0]));
            let ghost cb = cur@;
            cur.push(v[i]);
            assert(cb + (seq![t[0]] + r[0]) == cur@ + r[0]);
            assert(prepend_first(cb, r.update(0, seq![t[0]] + r[0])) == prepend_first(cur@, r));
            i = i + 1;
        }
    }
    assert(v@.skip(i as int).len() == 0);
    let ghost tail = split_pat(v@.skip(i as int), p@);
    assert(tail == seq![Seq::<char>::empty()]);
    assert(prepend_first(cur@, tail) == seq![cur@]) by {
        assert(cur@ + Seq::<char>::empty() == cur@);
    }
    let last = string_of(&cur);
    let ghost before = parts.deep_view();
    parts.push(last);
    assert(parts.deep_view() == before.push(last@));
    parts
}

/// No occurrence of `pat` in `s` starts before position `n`.
pub open spec fn no_match_before(s: Seq<char>, pat: Seq<char>, n: int) -> bool {
    forall|i: int| 0 <= i < n ==> !occurs_at(s, pat, i)
}

/// An occurrence of `pat` in `s` that starts at `i` is also one in `s + t`,
/// and one in `s + t` that ends within `s` is one in `s`.
proof fn lemma_occurs_in_prefix(s: Seq<char>, t: Seq<char>, pat: Seq<char>, i: int)
    requires
        0 <= i,
        i + pat.len() <= s.len(),
    ensures
        occurs_at(s + t, pat, i) == occurs_at(s, pat, i),
{
    assert((s + t).subrange(i, i + pat.len()) == s.subrange(i, i + pat.len()));
}

proof fn lemma_split_pat_plain_prefix(x: Seq<char>, rest: Seq<char>, pat: Seq<char>)
    requires
        pat.len() > 0,
        no_match_before(x + rest, pat, x.len() as int),
    ensures
        split_pat(x + rest, pat) == prepend_first(x, split_pat(rest, pat)),
    decreases x.len(),
{
    lemma_split_pat_nonempty(rest, pat);
    if x.len() == 0 {
        assert(x + rest == rest);
        assert(x + split_pat(rest, pat)[0] == split_pat(rest, pat)[0]);
        assert(prepend_first(x, split_pat(rest, pat)) == split_pat(rest, pat));
    } else {
        let s = x + rest;
        assert(s.drop_first() == x.drop_first() + rest);
        assert forall|i: int| 0 <= i < x.drop_first().len() implies !occurs_at(
            x.drop_first() + rest,
            pat,
            i,
        ) by {
            assert(!occurs_at(s, pat, i + 1));
            if i + pat.len() <= s.drop_first().len() {
                assert(s.drop_first().subrange(i, i + pat.len()) == s.subrange(
                    i + 1,
                    i + 1 + pat.len(),
                ));
            }
        }
        lemma_split_pat_plain_prefix(x.drop_first(), rest, pat);
        assert(s[0] == x[0]);
        assert(!starts_with(s, pat)) by {
            assert(!occurs_at(s, pat, 0));
        }
        let r = split_pat(rest, pat);
        assert(seq![x[0]] + (x.drop_first() + r[0]) == x + r[0]);
        assert(seq![x[0]] + x.drop_first() == x);
    }
}

/// Splitting pieces joined with a non-empty pattern gives the pieces back,
/// when no occurrence of the pattern starts inside a piece: within the piece
/// and the separator after it, or within the last piece.
pub proof fn lemma_split_pat_join(parts: Seq<Seq<char>>, pat: Seq<char>)
    requires
        parts.len() >= 1,
        pat.len() > 0,
        forall|k: int|
            0 <= k < parts.len() - 1 ==> no_match_before(
                #[trigger] parts[k] + pat,
                pat,
                parts[k].len() as int,
            ),
        no_match_before(parts.last(), pat, parts.last().len() as int),
    ensures
        split_pat(join(parts, pat), pat) == parts,
    decreases parts.len(),
{
    let p0 = parts[0];
    if parts.len() == 1 {
        assert(p0 + Seq::<char>::empty() == p0);
        lemma_split_pat_plain_prefix(p0, seq![], pat);
        assert(split_pat(Seq::<char>::empty(), pat) == seq![Seq::<char>::empty()]);
        assert(prepend_first(p0, seq![Seq::<char>::empty()]) == parts);
    } else {
        let rest = parts.drop_first();
        assert(parts == seq![p0] + rest);
        assert forall|k: int| 0 <= k < rest.len() - 1 implies no_match_before(
            #[trigger] rest[k] + pat,
            pat,
            rest[k].len() as int,
        ) by {
            assert(rest[k] == parts[k + 1]);
        }
        assert(rest.last() == parts.last());
        lemma_split_pat_join(rest, pat);
        lemma_join_concat(seq![p0], rest, pat);
        assert(join(seq![p0], pat) == p0);
        let tail = join(rest, pat);
        assert(p0 + pat + tail == p0 + (pat + tail));
        assert(no_match_before(p0 + pat, pat, p0.len() as int));
        assert forall|i: int| 0 <= i < p0.len() implies !occurs_at(p0 + (pat + tail), pat, i) by {
            assert(p0 + (pat + tail) == (p0 + pat) + tail);
            lemma_occurs_in_prefix(p0 + pat, tail, pat, i);
        }
        lemma_split_pat_plain_prefix(p0, pat + tail, pat);
        assert((pat + tail).skip(pat.len() as int) == tail);
        assert((pat + tail).subrange(0, pat.len() as int) == pat);
        assert(split_pat(pat + tail, pat) == seq![Seq::<char>::empty()] + rest);
        assert(p0 + Seq::<char>::empty() == p0);
        assert(prepend_first(p0, seq![Seq::<char>::empty()] + rest) == parts);
    }
}

} // verus!
