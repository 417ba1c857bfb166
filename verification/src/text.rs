//! Text over sequences of characters: the handful of string operations that the
//! rest of the crate needs, each proved against a mathematical statement.

use vstd::prelude::*;
use vstd::string::*;
use vstd::utf8::*;

verus! {

/// `String::push`: appends one character at the end.
pub assume_specification[ String::push ](s: &mut String, c: char)
    ensures
        final(s)@ == old(s)@.push(c),
;

// ---------------------------------------------------------------------------
// Views of optional and listed text
// ---------------------------------------------------------------------------

/// The text inside an optional string.
pub open spec fn opt_text(s: Option<String>) -> Option<Seq<char>> {
    match s {
        Some(s) => Some(s@),
        None => None,
    }
}

/// The text inside an optional borrowed string.
pub open spec fn opt_str(s: Option<&str>) -> Option<Seq<char>> {
    match s {
        Some(s) => Some(s@),
        None => None,
    }
}

/// The texts of a list of strings.
pub open spec fn texts(s: Seq<String>) -> Seq<Seq<char>> {
    s.map_values(|x: String| x@)
}

/// A copy of an optional string.
pub fn clone_opt(s: &Option<String>) -> (r: Option<String>)
    ensures
        opt_text(r) == opt_text(*s),
        r == *s,
{
    match s {
        Some(x) => Some(x.clone()),
        None => None,
    }
}

// ---------------------------------------------------------------------------
// Characters and slices
// ---------------------------------------------------------------------------

/// The characters of `s`, in order.
pub fn chars_of(s: &str) -> (v: Vec<char>)
    ensures
        v@ == s@,
{
    let mut v: Vec<char> = Vec::new();
    for c in it: s.chars()
        invariant
            it.seq() == s@,
            v@ == s@.take(it.index() as int),
    {
        v.push(c);
    }
    v
}

/// The characters `v[from..to]` as a string.
pub fn text_slice(v: &Vec<char>, from: usize, to: usize) -> (s: String)
    requires
        from <= to <= v@.len(),
    ensures
        s@ == v@.subrange(from as int, to as int),
{
    let mut s = String::new();
    let mut i: usize = from;
    while i < to
        invariant
            from <= i <= to <= v@.len(),
            s@ == v@.subrange(from as int, i as int),
        decreases to - i,
    {
        s.push(v[i]);
        i += 1;
    }
    s
}

/// Two texts have the same UTF-8 bytes exactly when they are the same text.
pub proof fn lemma_same_bytes(a: Seq<char>, b: Seq<char>)
    ensures
        encode_utf8(a) == encode_utf8(b) <==> a == b,
{
    encode_utf8_decode_utf8(a);
    encode_utf8_decode_utf8(b);
}

/// Whether two strings hold the same text.
pub fn same_text(a: &str, b: &str) -> (r: bool)
    ensures
        r == (a@ == b@),
{
    let x = a.as_bytes();
    let y = b.as_bytes();
    proof {
        lemma_same_bytes(a@, b@);
    }
    if x.len() != y.len() {
        return false;
    }
    let mut i: usize = 0;
    while i < x.len()
        invariant
            i <= x@.len(),
            x@.len() == y@.len(),
            x@ == encode_utf8(a@),
            y@ == encode_utf8(b@),
            encode_utf8(a@) == encode_utf8(b@) <==> a@ == b@,
            forall|j: int| 0 <= j < i ==> x@[j] == y@[j],
        decreases x@.len() - i,
    {
        if x[i] != y[i] {
            return false;
        }
        i += 1;
    }
    assert(x@ =~= y@);
    true
}

/// Position of the first `c` in `s`, or the end when there is none.
pub open spec fn first_index(s: Seq<char>, c: char) -> int
    decreases s.len(),
{
    if s.len() == 0 || s[0] == c {
        0
    } else {
        1 + first_index(s.drop_first(), c)
    }
}

/// What `first_index` finds: no earlier occurrence, and an occurrence unless at the end.
pub proof fn lemma_first_index(s: Seq<char>, c: char)
    ensures
        0 <= first_index(s, c) <= s.len(),
        forall|j: int| 0 <= j < first_index(s, c) ==> s[j] != c,
        first_index(s, c) < s.len() ==> s[first_index(s, c)] == c,
    decreases s.len(),
{
    if s.len() > 0 && s[0] != c {
        let t = s.drop_first();
        lemma_first_index(t, c);
        assert forall|j: int| 0 <= j < first_index(s, c) implies s[j] != c by {
            if j > 0 {
                assert(t[j - 1] == s[j]);
            }
        }
    }
}

/// Position of the first `c` in `v`, or `v.len()` when there is none.
pub fn find_char(v: &Vec<char>, c: char) -> (i: usize)
    ensures
        i == first_index(v@, c),
        i <= v@.len(),
{
    let mut i: usize = 0;
    while i < v.len() && v[i] != c
        invariant
            i <= v@.len(),
            forall|j: int| 0 <= j < i ==> v@[j] != c,
        decreases v@.len() - i,
    {
        i += 1;
    }
    proof {
        lemma_first_index(v@, c);
        let k = first_index(v@, c);
        if k < i {
            assert(v@[k] != c);
        }
        if i < k {
            assert(v@[i as int] != c);
        }
    }
    i
}

// ---------------------------------------------------------------------------
// White space
// ---------------------------------------------------------------------------

/// The characters with the Unicode `White_Space` property.
pub open spec fn white(c: char) -> bool {
    ||| '\u{9}' <= c <= '\u{d}'
    ||| c == '\u{20}'
    ||| c == '\u{85}'
    ||| c == '\u{a0}'
    ||| c == '\u{1680}'
    ||| '\u{2000}' <= c <= '\u{200a}'
    ||| c == '\u{2028}'
    ||| c == '\u{2029}'
    ||| c == '\u{202f}'
    ||| c == '\u{205f}'
    ||| c == '\u{3000}'
}

/// Whether `c` has the Unicode `White_Space` property.
pub fn is_white(c: char) -> (r: bool)
    ensures
        r == white(c),
{
    ('\u{9}' <= c && c <= '\u{d}') || c == '\u{20}' || c == '\u{85}' || c == '\u{a0}'
        || c == '\u{1680}' || ('\u{2000}' <= c && c <= '\u{200a}') || c == '\u{2028}'
        || c == '\u{2029}' || c == '\u{202f}' || c == '\u{205f}' || c == '\u{3000}'
}

/// `s` without its leading white space.
pub open spec fn trim_front(s: Seq<char>) -> Seq<char>
    decreases s.len(),
{
    if s.len() > 0 && white(s[0]) {
        trim_front(s.drop_first())
    } else {
        s
    }
}

/// `s` without its trailing white space.
pub open spec fn trim_back(s: Seq<char>) -> Seq<char>
    decreases s.len(),
{
    if s.len() > 0 && white(s.last()) {
        trim_back(s.drop_last())
    } else {
        s
    }
}

/// `s` without the white space at either end.
pub open spec fn trimmed(s: Seq<char>) -> Seq<char> {
    trim_back(trim_front(s))
}

/// Trimming leaves a text that neither begins nor ends with white space, and
/// takes nothing but white space from either end.
pub proof fn lemma_trimmed(s: Seq<char>)
    ensures
        trimmed(s).len() > 0 ==> !white(trimmed(s)[0]) && !white(trimmed(s).last()),
        trimmed(trimmed(s)) == trimmed(s),
        trimmed(s).len() <= s.len(),
        forall|c: char| trimmed(s).contains(c) ==> s.contains(c),
{
    lemma_trim_front(s);
    lemma_trim_back(trim_front(s));
    let t = trimmed(s);
    let f = trim_front(s);
    if t.len() > 0 {
        assert(t[0] == f[0]);
    }
    assert forall|c: char| t.contains(c) implies s.contains(c) by {
        let i = choose|i: int| 0 <= i < t.len() && t[i] == c;
        assert(f[i] == c);
        assert(s[i + (s.len() - f.len())] == c);
    }
}

proof fn lemma_trim_front(s: Seq<char>)
    ensures
        trim_front(s).len() <= s.len(),
        trim_front(s) == s.skip(s.len() - trim_front(s).len()),
        trim_front(s).len() > 0 ==> !white(trim_front(s)[0]),
        forall|j: int| 0 <= j < s.len() - trim_front(s).len() ==> white(#[trigger] s[j]),
    decreases s.len(),
{
    if s.len() > 0 && white(s[0]) {
        let t = s.drop_first();
        lemma_trim_front(t);
        assert(trim_front(s) =~= s.skip(s.len() - trim_front(s).len()));
        assert forall|j: int| 0 <= j < s.len() - trim_front(s).len() implies white(#[trigger] s[j]) by {
            if j > 0 {
                assert(t[j - 1] == s[j]);
            }
        }
    } else {
        assert(s =~= s.skip(0));
    }
}

proof fn lemma_trim_back(s: Seq<char>)
    ensures
        trim_back(s).len() <= s.len(),
        trim_back(s) == s.take(trim_back(s).len() as int),
        trim_back(s).len() > 0 ==> !white(trim_back(s).last()),
        forall|j: int| trim_back(s).len() <= j < s.len() ==> white(#[trigger] s[j]),
    decreases s.len(),
{
    if s.len() > 0 && white(s.last()) {
        lemma_trim_back(s.drop_last());
        assert(trim_back(s) =~= s.take(trim_back(s).len() as int));
        assert forall|j: int| trim_back(s).len() <= j < s.len() implies white(#[trigger] s[j]) by {
            if j < s.len() - 1 {
                assert(s.drop_last()[j] == s[j]);
            }
        }
    } else {
        assert(s =~= s.take(s.len() as int));
    }
}

/// `v[from..to]` without the white space at either end.
pub fn trim_chars(v: &Vec<char>, from: usize, to: usize) -> (s: String)
    requires
        from <= to <= v@.len(),
    ensures
        s@ == trimmed(v@.subrange(from as int, to as int)),
{
    let ghost whole = v@.subrange(from as int, to as int);
    let mut i: usize = from;
    while i < to && is_white(v[i])
        invariant
            from <= i <= to <= v@.len(),
            whole == v@.subrange(from as int, to as int),
            trim_front(whole) == trim_front(v@.subrange(i as int, to as int)),
        decreases to - i,
    {
        assert(v@.subrange(i as int, to as int).drop_first() =~= v@.subrange(i + 1, to as int));
        i += 1;
    }
    let mut j: usize = to;
    assert(trim_front(whole) == v@.subrange(i as int, to as int));
    while i < j && is_white(v[j - 1])
        invariant
            i <= j <= to <= v@.len(),
            trim_back(trim_front(whole)) == trim_back(v@.subrange(i as int, j as int)),
        decreases j - i,
    {
        assert(v@.subrange(i as int, j as int).drop_last() =~= v@.subrange(i as int, j - 1));
        j -= 1;
    }
    text_slice(v, i, j)
}

/// `s` without the white space at either end.
pub fn trim_text(s: &str) -> (r: String)
    ensures
        r@ == trimmed(s@),
{
    let v = chars_of(s);
    assert(v@.subrange(0, v@.len() as int) =~= s@);
    trim_chars(&v, 0, v.len())
}

// ---------------------------------------------------------------------------
// Splitting
// ---------------------------------------------------------------------------

/// The pieces of `s` between occurrences of `sep`: one more piece than separators.
pub open spec fn split_on(s: Seq<char>, sep: char) -> Seq<Seq<char>>
    decreases s.len(),
{
    if s.len() == 0 {
        seq![Seq::<char>::empty()]
    } else {
        let pieces = split_on(s.drop_last(), sep);
        if s.last() == sep {
            pieces.push(Seq::<char>::empty())
        } else {
            pieces.drop_last().push(pieces.last().push(s.last()))
        }
    }
}

/// No piece holds the separator, and every piece is made of characters of `s`.
pub proof fn lemma_split_on(s: Seq<char>, sep: char)
    ensures
        split_on(s, sep).len() > 0,
        forall|i: int| 0 <= i < split_on(s, sep).len() ==> !(#[trigger] split_on(s, sep)[i]).contains(sep),
        forall|i: int, c: char| 0 <= i < split_on(s, sep).len() && (#[trigger] split_on(s, sep)[i]).contains(c)
            ==> #[trigger] s.contains(c),
    decreases s.len(),
{
    if s.len() > 0 {
        let t = s.drop_last();
        lemma_split_on(t, sep);
        let p = split_on(t, sep);
        let q = split_on(s, sep);
        assert forall|i: int| 0 <= i < q.len() implies !(#[trigger] q[i]).contains(sep) by {
            if i < p.len() - 1 {
                assert(q[i] == p[i]);
            } else if i == p.len() - 1 && s.last() != sep {
                assert(!p[i].contains(sep));
                if q[i].contains(sep) {
                    let k = choose|k: int| 0 <= k < q[i].len() && q[i][k] == sep;
                    assert(p[i][k] == sep);
                }
            } else if i == p.len() - 1 {
                assert(q[i] == p[i]);
            }
        }
        assert forall|i: int, c: char| 0 <= i < q.len() && (#[trigger] q[i]).contains(c) implies #[trigger] s.contains(c) by {
            let k = choose|k: int| 0 <= k < q[i].len() && q[i][k] == c;
            if i < p.len() && k < p[i].len() {
                assert(p[i][k] == c);
                assert(p[i].contains(c));
                assert(t.contains(c));
                let m = choose|m: int| 0 <= m < t.len() && t[m] == c;
                assert(s[m] == c);
            } else {
                assert(s[s.len() - 1] == c);
            }
        }
    }
}

/// Splitting goes piece by piece: what follows a separator and holds none is one more
/// piece.
pub proof fn lemma_split_push(s: Seq<char>, sep: char, piece: Seq<char>)
    requires
        !piece.contains(sep),
    ensures
        split_on(s.push(sep) + piece, sep) == split_on(s, sep).push(piece),
    decreases piece.len(),
{
    let all = s.push(sep) + piece;
    if piece.len() == 0 {
        assert(all =~= s.push(sep));
        assert(all.drop_last() =~= s);
        assert(piece =~= Seq::<char>::empty());
    } else {
        let rest = piece.drop_last();
        assert forall|c: char| rest.contains(c) implies piece.contains(c) by {
            let i = choose|i: int| 0 <= i < rest.len() && rest[i] == c;
            assert(piece[i] == c);
        }
        lemma_split_push(s, sep, rest);
        assert(all.drop_last() =~= s.push(sep) + rest);
        assert(piece[piece.len() - 1] == piece.last());
        assert(all.last() != sep);
        assert(split_on(s, sep).push(rest).drop_last() =~= split_on(s, sep));
        assert(rest.push(piece.last()) =~= piece);
    }
}

/// A text without the separator is one piece.
pub proof fn lemma_split_none(s: Seq<char>, sep: char)
    requires
        !s.contains(sep),
    ensures
        split_on(s, sep) == seq![s],
    decreases s.len(),
{
    if s.len() > 0 {
        let rest = s.drop_last();
        assert forall|c: char| rest.contains(c) implies s.contains(c) by {
            let i = choose|i: int| 0 <= i < rest.len() && rest[i] == c;
            assert(s[i] == c);
        }
        lemma_split_none(rest, sep);
        assert(s[s.len() - 1] == s.last());
        assert(rest.push(s.last()) =~= s);
        assert(split_on(s, sep) =~= seq![s]);
    } else {
        assert(s =~= Seq::<char>::empty());
        assert(split_on(s, sep) =~= seq![s]);
    }
}

/// What stands before a separator and what stands after it are split on their own.
pub proof fn lemma_split_apart(a: Seq<char>, b: Seq<char>, sep: char)
    ensures
        split_on(a.push(sep) + b, sep) == split_on(a, sep) + split_on(b, sep),
    decreases b.len(),
{
    let s = a.push(sep) + b;
    if b.len() == 0 {
        assert(s =~= a.push(sep));
        assert(s.drop_last() =~= a);
        assert(split_on(s, sep) =~= split_on(a, sep) + split_on(b, sep));
    } else {
        let t = b.drop_last();
        lemma_split_apart(a, t, sep);
        lemma_split_on(t, sep);
        assert(s.drop_last() =~= a.push(sep) + t);
        assert(s.last() == b.last());
        let (p, q) = (split_on(a, sep), split_on(t, sep));
        assert((p + q).drop_last() =~= p + q.drop_last());
        assert((p + q).last() == q.last());
        assert(split_on(s, sep) =~= p + split_on(b, sep));
    }
}

/// The positions at which the pieces of a split begin and end.
pub open spec fn piece_ranges_ok(v: Seq<char>, starts: Seq<usize>, ends: Seq<usize>, sep: char) -> bool {
    &&& starts.len() == ends.len()
    &&& starts.len() == split_on(v, sep).len()
    &&& forall|i: int| 0 <= i < starts.len() ==> {
        &&& (#[trigger] starts[i]) <= ends[i] <= v.len()
        &&& v.subrange(starts[i] as int, ends[i] as int) == split_on(v, sep)[i]
    }
}

/// The pieces of `v` between occurrences of `sep`, as index ranges.
pub fn split_ranges(v: &Vec<char>, sep: char) -> (r: (Vec<usize>, Vec<usize>))
    ensures
        piece_ranges_ok(v@, r.0@, r.1@, sep),
{
    let mut starts: Vec<usize> = Vec::new();
    let mut ends: Vec<usize> = Vec::new();
    let mut start: usize = 0;
    let mut i: usize = 0;
    while i < v.len()
        invariant
            start <= i <= v@.len(),
            starts@.len() == ends@.len(),
            split_on(v@.take(i as int), sep).len() == starts@.len() + 1,
            forall|k: int| 0 <= k < starts@.len() ==> {
                &&& (#[trigger] starts@[k]) <= ends@[k] <= v@.len()
                &&& v@.subrange(starts@[k] as int, ends@[k] as int) == split_on(v@.take(i as int), sep)[k]
            },
            split_on(v@.take(i as int), sep).last() == v@.subrange(start as int, i as int),
        decreases v@.len() - i,
    {
        assert(v@.take(i + 1).drop_last() =~= v@.take(i as int));
        let ghost before = split_on(v@.take(i as int), sep);
        if v[i] == sep {
            starts.push(start);
            ends.push(i);
            start = i + 1;
            assert(v@.subrange(start as int, i + 1) =~= Seq::<char>::empty());
        } else {
            assert(v@.subrange(start as int, i as int).push(v@[i as int]) =~= v@.subrange(start as int, i + 1));
        }
        i += 1;
    }
    assert(v@.take(i as int) =~= v@);
    starts.push(start);
    ends.push(i);
    (starts, ends)
}

// ---------------------------------------------------------------------------
// Case, prefixes and substrings
// ---------------------------------------------------------------------------

/// ASCII upper case to lower case; any other character as it is.
pub open spec fn lower_char(c: char) -> char {
    if 'A' <= c <= 'Z' {
        (c as u32 + 32) as char
    } else {
        c
    }
}

/// `s` with every ASCII upper-case letter in lower case.
pub open spec fn lowered(s: Seq<char>) -> Seq<char> {
    s.map_values(|c: char| lower_char(c))
}

/// ASCII upper case to lower case; any other character as it is.
pub fn to_lower_char(c: char) -> (r: char)
    ensures
        r == lower_char(c),
{
    if 'A' <= c && c <= 'Z' {
        ((c as u8) + 32) as char
    } else {
        c
    }
}

/// `s` with every ASCII upper-case letter in lower case.
pub fn lower_text(s: &str) -> (r: String)
    ensures
        r@ == lowered(s@),
{
    let mut r = String::new();
    for c in it: s.chars()
        invariant
            it.seq() == s@,
            r@ == lowered(s@.take(it.index() as int)),
    {
        r.push(to_lower_char(c));
        assert(r@ =~= lowered(s@.take(it.index() + 1)));
    }
    assert(s@.take(s@.len() as int) =~= s@);
    r
}

/// Whether `p` is a prefix of `s`.
pub open spec fn begins(s: Seq<char>, p: Seq<char>) -> bool {
    p.len() <= s.len() && s.take(p.len() as int) == p
}

/// Whether `p` occurs in `s` at `at`.
pub open spec fn occurs_at(s: Seq<char>, p: Seq<char>, at: int) -> bool {
    0 <= at && at + p.len() <= s.len() && s.subrange(at, at + p.len()) == p
}

/// Whether `p` occurs somewhere in `s`.
pub open spec fn holds(s: Seq<char>, p: Seq<char>) -> bool {
    exists|at: int| occurs_at(s, p, at)
}

/// Whether `p` occurs in `v` at `at`.
pub fn match_at(v: &Vec<char>, p: &Vec<char>, at: usize) -> (r: bool)
    ensures
        r == occurs_at(v@, p@, at as int),
{
    if p.len() > v.len() || at > v.len() - p.len() {
        return false;
    }
    let mut i: usize = 0;
    while i < p.len()
        invariant
            i <= p@.len(),
            at + p@.len() <= v@.len() <= usize::MAX,
            forall|j: int| 0 <= j < i ==> v@[at + j] == p@[j],
        decreases p@.len() - i,
    {
        if v[at + i] != p[i] {
            assert(v@.subrange(at as int, at + p@.len())[i as int] != p@[i as int]);
            return false;
        }
        i += 1;
    }
    assert(v@.subrange(at as int, at + p@.len()) =~= p@);
    true
}

/// Where `p` first occurs in `v`, if anywhere.
pub fn find_chars(v: &Vec<char>, p: &Vec<char>) -> (r: Option<usize>)
    ensures
        match r {
            Some(at) => {
                &&& occurs_at(v@, p@, at as int)
                &&& at + p@.len() <= v@.len()
                &&& forall|k: int| 0 <= k < at ==> !occurs_at(v@, p@, k)
            },
            None => !holds(v@, p@),
        },
{
    if p.len() > v.len() {
        return None;
    }
    let last: usize = v.len() - p.len();
    let mut at: usize = 0;
    loop
        invariant
            at <= last,
            last + p@.len() == v@.len(),
            forall|k: int| 0 <= k < at ==> !occurs_at(v@, p@, k),
        decreases last - at,
    {
        if match_at(v, p, at) {
            return Some(at);
        }
        if at == last {
            return None;
        }
        at += 1;
    }
}

/// Whether `p` occurs somewhere in `s`.
pub fn contains_text(s: &str, p: &str) -> (r: bool)
    ensures
        r == holds(s@, p@),
{
    let v = chars_of(s);
    let q = chars_of(p);
    find_chars(&v, &q).is_some()
}

/// Whether `s` begins with `p`.
pub fn begins_with(s: &str, p: &str) -> (r: bool)
    ensures
        r == begins(s@, p@),
{
    let v = chars_of(s);
    let q = chars_of(p);
    proof {
        if p@.len() <= s@.len() {
            assert(s@.take(p@.len() as int) =~= s@.subrange(0, p@.len() as int));
        }
    }
    match_at(&v, &q, 0)
}

/// `s` without its trailing slashes.
pub open spec fn unslashed(s: Seq<char>) -> Seq<char>
    decreases s.len(),
{
    if s.len() > 0 && s.last() == '/' {
        unslashed(s.drop_last())
    } else {
        s
    }
}

/// Exactly the slashes at the end are dropped: what is left is the beginning of the text, all
/// that is missing is slashes, and what is left ends with none.
pub proof fn only_trailing_slashes_are_dropped(s: Seq<char>)
    ensures
        unslashed(s).len() <= s.len(),
        forall|i: int| 0 <= i < unslashed(s).len() ==> s[i] == unslashed(s)[i],
        forall|i: int| unslashed(s).len() <= i < s.len() ==> s[i] == '/',
        unslashed(s).len() > 0 ==> unslashed(s).last() != '/',
    decreases s.len(),
{
    if s.len() > 0 && s.last() == '/' {
        let (t, r) = (s.drop_last(), unslashed(s));
        only_trailing_slashes_are_dropped(t);
        assert forall|i: int| r.len() <= i < s.len() implies s[i] == '/' by {
            if i < t.len() {
                assert(t[i] == '/');
            }
        }
        assert forall|i: int| 0 <= i < r.len() implies s[i] == r[i] by {
            assert(t[i] == r[i]);
        }
    }
}

/// `s` without its trailing slashes.
pub fn trim_slashes(s: &str) -> (r: String)
    ensures
        r@ == unslashed(s@),
{
    let v = chars_of(s);
    let mut j: usize = v.len();
    assert(v@.subrange(0, j as int) =~= s@);
    while 0 < j && v[j - 1] == '/'
        invariant
            j <= v@.len(),
            unslashed(s@) == unslashed(v@.subrange(0, j as int)),
        decreases j,
    {
        assert(v@.subrange(0, j as int).drop_last() =~= v@.subrange(0, j - 1));
        j -= 1;
    }
    text_slice(&v, 0, j)
}

// ---------------------------------------------------------------------------
// Numbers
// ---------------------------------------------------------------------------

/// The decimal digit for `d < 10`.
pub open spec fn digit(d: nat) -> char {
    ('0' as u32 + d) as char
}

/// `n` in decimal, without leading zeros.
pub open spec fn decimal(n: nat) -> Seq<char>
    decreases n,
{
    if n < 10 {
        seq![digit(n)]
    } else {
        decimal(n / 10).push(digit(n % 10))
    }
}

/// `n` in decimal, without leading zeros.
pub fn decimal_text(n: u64) -> (r: String)
    ensures
        r@ == decimal(n as nat),
    decreases n,
{
    if n < 10 {
        let mut r = String::new();
        r.push((48 + (n as u8)) as char);
        assert(r@ =~= decimal(n as nat));
        r
    } else {
        let mut r = decimal_text(n / 10);
        r.push((48 + ((n % 10) as u8)) as char);
        r
    }
}

/// `s` padded on the left with zeros to `width` characters.
pub open spec fn zero_padded(s: Seq<char>, width: nat) -> Seq<char> {
    if s.len() >= width {
        s
    } else {
        Seq::new((width - s.len()) as nat, |i: int| '0') + s
    }
}

/// `n` in decimal, padded on the left with zeros to six digits.
pub fn six_digits(n: u64) -> (r: String)
    ensures
        r@ == zero_padded(decimal(n as nat), 6),
{
    let d = decimal_text(n);
    let v = chars_of(d.as_str());
    let mut r = String::new();
    let mut k: usize = v.len();
    while k < 6
        invariant
            v@ == decimal(n as nat),
            k >= v@.len(),
            k <= 6 || k == v@.len(),
            r@ == Seq::new((k - v@.len()) as nat, |i: int| '0'),
        decreases 6 - k,
    {
        r.push('0');
        k += 1;
        assert(r@ =~= Seq::new((k - v@.len()) as nat, |i: int| '0'));
    }
    r.append(d.as_str());
    assert(r@ =~= zero_padded(decimal(n as nat), 6));
    r
}

// ---------------------------------------------------------------------------
// What the operations do, character by character
// ---------------------------------------------------------------------------

/// White space is a fixed set of code points, and nothing else.
pub proof fn white_space_is_a_fixed_set(c: char)
    ensures
        white(c) <==> {
            let n = c as int;
            ||| 9 <= n <= 13
            ||| n == 32
            ||| n == 133
            ||| n == 160
            ||| n == 5760
            ||| 8192 <= n <= 8202
            ||| n == 8232
            ||| n == 8233
            ||| n == 8239
            ||| n == 8287
            ||| n == 12288
        },
{
}

/// Whether everything of `s` outside `from..to` is white space, and `from..to` neither
/// begins nor ends with any.
pub open spec fn white_around(s: Seq<char>, from: int, to: int) -> bool {
    &&& 0 <= from <= to <= s.len()
    &&& forall|k: int| 0 <= k < from ==> white(#[trigger] s[k])
    &&& forall|k: int| to <= k < s.len() ==> white(#[trigger] s[k])
    &&& from < to ==> !white(s[from]) && !white(s[to - 1])
}

/// Trimming takes the white space at either end and nothing else.
pub proof fn trimming_takes_exactly_the_white_space(s: Seq<char>)
    ensures
        exists|from: int, to: int| #[trigger] white_around(s, from, to) && trimmed(s) == s.subrange(from, to),
{
    lemma_trim_front(s);
    let f = trim_front(s);
    lemma_trim_back(f);
    let t = trimmed(s);
    let from = s.len() - f.len();
    let to = from + t.len();
    assert forall|k: int| to <= k < s.len() implies white(#[trigger] s[k]) by {
        assert(f[k - from] == s[k]);
    }
    if from < to {
        assert(t[0] == f[0] && f[0] == s[from]);
        assert(t.last() == s[to - 1]);
    }
    assert(t =~= s.subrange(from, to));
    assert(white_around(s, from, to));
}

/// Pieces written one after the other, with `sep` between them.
pub open spec fn joined_by(pieces: Seq<Seq<char>>, sep: char) -> Seq<char>
    decreases pieces.len(),
{
    if pieces.len() == 0 {
        Seq::empty()
    } else if pieces.len() == 1 {
        pieces[0]
    } else {
        joined_by(pieces.drop_last(), sep).push(sep) + pieces.last()
    }
}

/// Splitting loses nothing: the pieces, none of which holds the separator, give the text
/// back when they are written with the separator between them.
pub proof fn the_pieces_give_the_text_back(s: Seq<char>, sep: char)
    ensures
        joined_by(split_on(s, sep), sep) == s,
        forall|i: int| 0 <= i < split_on(s, sep).len() ==> !(#[trigger] split_on(s, sep)[i]).contains(sep),
        split_on(s, sep).len() > 0,
    decreases s.len(),
{
    lemma_split_on(s, sep);
    if s.len() > 0 {
        let t = s.drop_last();
        the_pieces_give_the_text_back(t, sep);
        let (p, q) = (split_on(t, sep), split_on(s, sep));
        if s.last() == sep {
            assert(q.drop_last() =~= p);
            assert(joined_by(q, sep) =~= t.push(sep));
        } else {
            assert(q.drop_last() =~= p.drop_last());
            assert(joined_by(q, sep) =~= joined_by(p, sep).push(s.last()));
        }
        assert(s =~= t.push(s.last()));
    } else {
        assert(joined_by(split_on(s, sep), sep) =~= s);
    }
}

/// Lowering turns `A` to `Z` into `a` to `z`, leaves every other character as it is, and
/// keeps every character in its place.
pub proof fn lowering_changes_ascii_capitals_only(s: Seq<char>, i: int)
    requires
        0 <= i < s.len(),
    ensures
        lowered(s).len() == s.len(),
        65 <= s[i] as int <= 90 ==> lowered(s)[i] as int == s[i] as int + 32,
        !(65 <= s[i] as int <= 90) ==> lowered(s)[i] == s[i],
{
}

} // verus!
