//! Plain text helpers: characters, trimming, splitting, searching and ordering.

use vstd::prelude::*;
use vstd::utf8::*;

verus! {

/// `String::push` appends one character at the end.
pub assume_specification[ String::push ](s: &mut String, c: char)
    ensures
        final(s)@ == old(s)@.push(c),
;

/// `String::pop` takes the last character off, if there is one.
pub assume_specification[ String::pop ](s: &mut String) -> (r: Option<char>)
    ensures
        old(s)@.len() == 0 ==> r is None && final(s)@ == old(s)@,
        old(s)@.len() > 0 ==> r == Some(old(s)@.last()) && final(s)@ == old(s)@.drop_last(),
;

/// The characters of a text, in order.
pub fn chars_of(s: &str) -> (v: Vec<char>)
    ensures
        v@ == s@,
{
    let mut v: Vec<char> = Vec::new();
    for c in it: s.chars()
        invariant
            it.seq() == s@,
            v@ == s@.take(it.index()),
    {
        v.push(c);
    }
    assert(s@.take(s@.len() as int) =~= s@);
    v
}

/// The text made of the characters `from..to` of `v`.
pub fn text_of_range(v: &Vec<char>, from: usize, to: usize) -> (s: String)
    requires
        from <= to <= v@.len(),
    ensures
        s@ == v@.subrange(from as int, to as int),
{
    let mut s = String::new();
    let mut i: usize = from;
    while i < to
        invariant
            from <= i <= to <= v@.len(),
            s@ == v@.subrange(from as int, i as int),
        decreases to - i,
    {
        s.push(v[i]);
        assert(v@.subrange(from as int, i + 1) =~= v@.subrange(from as int, i as int).push(
            v@[i as int],
        ));
        i = i + 1;
    }
    s
}

/// Whether two texts hold the same characters.
pub fn same_text(a: &str, b: &str) -> (r: bool)
    ensures
        r == (a@ == b@),
{
    let x = chars_of(a);
    let y = chars_of(b);
    if x.len() != y.len() {
        return false;
    }
    let mut i: usize = 0;
    while i < x.len()
        invariant
            i <= x@.len() == y@.len(),
            x@ == a@,
            y@ == b@,
            forall|k: int| 0 <= k < i ==> x@[k] == y@[k],
        decreases x@.len() - i,
    {
        if x[i] != y[i] {
            return false;
        }
        i = i + 1;
    }
    assert(x@ =~= y@);
    true
}

// ---------------------------------------------------------------------------
// Joining
// ---------------------------------------------------------------------------

pub fn join2(a: &str, b: &str) -> (s: String)
    ensures
        s@ == a@ + b@,
{
    let mut s = a.to_owned();
    s.append(b);
    s
}

pub fn join3(a: &str, b: &str, c: &str) -> (s: String)
    ensures
        s@ == a@ + b@ + c@,
{
    let mut s = join2(a, b);
    s.append(c);
    s
}

pub fn join4(a: &str, b: &str, c: &str, d: &str) -> (s: String)
    ensures
        s@ == a@ + b@ + c@ + d@,
{
    let mut s = join3(a, b, c);
    s.append(d);
    s
}

pub fn join5(a: &str, b: &str, c: &str, d: &str, e: &str) -> (s: String)
    ensures
        s@ == a@ + b@ + c@ + d@ + e@,
{
    let mut s = join4(a, b, c, d);
    s.append(e);
    s
}

pub fn join6(a: &str, b: &str, c: &str, d: &str, e: &str, f: &str) -> (s: String)
    ensures
        s@ == a@ + b@ + c@ + d@ + e@ + f@,
{
    let mut s = join5(a, b, c, d, e);
    s.append(f);
    s
}

pub fn join7(a: &str, b: &str, c: &str, d: &str, e: &str, f: &str, g: &str) -> (s: String)
    ensures
        s@ == a@ + b@ + c@ + d@ + e@ + f@ + g@,
{
    let mut s = join6(a, b, c, d, e, f);
    s.append(g);
    s
}

pub fn join8(a: &str, b: &str, c: &str, d: &str, e: &str, f: &str, g: &str, h: &str) -> (s: String)
    ensures
        s@ == a@ + b@ + c@ + d@ + e@ + f@ + g@ + h@,
{
    let mut s = join7(a, b, c, d, e, f, g);
    s.append(h);
    s
}

pub fn join9(
    a: &str,
    b: &str,
    c: &str,
    d: &str,
    e: &str,
    f: &str,
    g: &str,
    h: &str,
    i: &str,
) -> (s: String)
    ensures
        s@ == a@ + b@ + c@ + d@ + e@ + f@ + g@ + h@ + i@,
{
    let mut s = join8(a, b, c, d, e, f, g, h);
    s.append(i);
    s
}

pub fn join10(
    a: &str,
    b: &str,
    c: &str,
    d: &str,
    e: &str,
    f: &str,
    g: &str,
    h: &str,
    i: &str,
    j: &str,
) -> (s: String)
    ensures
        s@ == a@ + b@ + c@ + d@ + e@ + f@ + g@ + h@ + i@ + j@,
{
    let mut s = join9(a, b, c, d, e, f, g, h, i);
    s.append(j);
    s
}

// ---------------------------------------------------------------------------
// White space and trimming
// ---------------------------------------------------------------------------

/// The code points with the Unicode property `White_Space`.
pub open spec fn white_space(c: char) -> bool {
    let u = c as u32;
    ||| 0x09 <= u <= 0x0d
    ||| u == 0x20
    ||| u == 0x85
    ||| u == 0xa0
    ||| u == 0x1680
    ||| 0x2000 <= u <= 0x200a
    ||| u == 0x2028
    ||| u == 0x2029
    ||| u == 0x202f
    ||| u == 0x205f
    ||| u == 0x3000
}

pub fn is_white_space(c: char) -> (r: bool)
    ensures
        r == white_space(c),
{
    let u: u32 = c as u32;
    (0x09 <= u && u <= 0x0d) || u == 0x20 || u == 0x85 || u == 0xa0 || u == 0x1680 || (0x2000 <= u
        && u <= 0x200a) || u == 0x2028 || u == 0x2029 || u == 0x202f || u == 0x205f || u == 0x3000
}

/// A set of characters to trim.
#[derive(Clone, Copy)]
pub enum CharSet {
    WhiteSpace,
    One(char),
}

impl CharSet {
    pub open spec fn holds(self, c: char) -> bool {
        match self {
            CharSet::WhiteSpace => white_space(c),
            CharSet::One(d) => c == d,
        }
    }

    fn has(self, c: char) -> (r: bool)
        ensures
            r == self.holds(c),
    {
        match self {
            CharSet::WhiteSpace => is_white_space(c),
            CharSet::One(d) => c == d,
        }
    }
}

/// `s` without its leading characters of `set`.
pub open spec fn trimmed_start(s: Seq<char>, set: CharSet) -> Seq<char>
    decreases s.len(),
{
    if s.len() > 0 && set.holds(s[0]) {
        trimmed_start(s.skip(1), set)
    } else {
        s
    }
}

/// `s` without its trailing characters of `set`.
pub open spec fn trimmed_end(s: Seq<char>, set: CharSet) -> Seq<char>
    decreases s.len(),
{
    if s.len() > 0 && set.holds(s.last()) {
        trimmed_end(s.drop_last(), set)
    } else {
        s
    }
}

/// `s` without the characters of `set` at its two ends.
pub open spec fn trimmed(s: Seq<char>, set: CharSet) -> Seq<char> {
    trimmed_end(trimmed_start(s, set), set)
}

/// Nothing is left of `s` when its white space is trimmed.
pub open spec fn blank(s: Seq<char>) -> bool {
    trimmed(s, CharSet::WhiteSpace).len() == 0
}

/// The text without the characters of `set` at its two ends.
pub fn trim(s: &str, set: CharSet) -> (r: String)
    ensures
        r@ == trimmed(s@, set),
{
    let v = chars_of(s);
    let mut from: usize = 0;
    assert(v@.subrange(0, v@.len() as int) =~= v@);
    while from < v.len() && set.has(v[from])
        invariant
            from <= v@.len(),
            trimmed_start(v@, set) == trimmed_start(v@.subrange(from as int, v@.len() as int), set),
        decreases v@.len() - from,
    {
        assert(v@.subrange(from as int, v@.len() as int).skip(1) =~= v@.subrange(
            from + 1,
            v@.len() as int,
        ));
        from = from + 1;
    }
    let ghost kept = v@.subrange(from as int, v@.len() as int);
    let mut to: usize = v.len();
    while from < to && set.has(v[to - 1])
        invariant
            from <= to <= v@.len(),
            trimmed_end(kept, set) == trimmed_end(v@.subrange(from as int, to as int), set),
        decreases to,
    {
        assert(v@.subrange(from as int, to as int).drop_last() =~= v@.subrange(
            from as int,
            to - 1,
        ));
        to = to - 1;
    }
    text_of_range(&v, from, to)
}

/// Whether the text is empty once its white space is trimmed.
pub fn is_blank(s: &str) -> (r: bool)
    ensures
        r == blank(s@),
{
    trim(s, CharSet::WhiteSpace).as_str().is_empty()
}

/// Trimming leaves no character of the set at either end.
pub proof fn trimmed_has_bare_ends(s: Seq<char>, set: CharSet)
    ensures
        trimmed(s, set).len() > 0 ==> !set.holds(trimmed(s, set)[0]) && !set.holds(
            trimmed(s, set).last(),
        ),
{
    lemma_trimmed_start(s, set);
    lemma_trimmed_end(trimmed_start(s, set), set);
}

proof fn lemma_trimmed_start(s: Seq<char>, set: CharSet)
    ensures
        trimmed_start(s, set).len() > 0 ==> !set.holds(trimmed_start(s, set)[0]),
    decreases s.len(),
{
    if s.len() > 0 && set.holds(s[0]) {
        lemma_trimmed_start(s.skip(1), set);
    }
}

proof fn lemma_trimmed_end(s: Seq<char>, set: CharSet)
    ensures
        trimmed_end(s, set).len() <= s.len(),
        trimmed_end(s, set) == s.take(trimmed_end(s, set).len() as int),
        trimmed_end(s, set).len() > 0 ==> !set.holds(trimmed_end(s, set).last()),
    decreases s.len(),
{
    if s.len() > 0 && set.holds(s.last()) {
        lemma_trimmed_end(s.drop_last(), set);
        assert(s.drop_last().take(trimmed_end(s, set).len() as int) =~= s.take(
            trimmed_end(s, set).len() as int,
        ));
    } else {
        assert(s.take(s.len() as int) =~= s);
    }
}

// ---------------------------------------------------------------------------
// Splitting and searching
// ---------------------------------------------------------------------------

/// The first position of `c` in `s` from position `from` on, or the length of `s`.
pub open spec fn position_from(s: Seq<char>, c: char, from: int) -> int
    decreases s.len() - from,
{
    if 0 <= from < s.len() && s[from] != c {
        position_from(s, c, from + 1)
    } else {
        from
    }
}

proof fn lemma_position_from(s: Seq<char>, c: char, from: int)
    requires
        0 <= from <= s.len(),
    ensures
        from <= position_from(s, c, from) <= s.len(),
        forall|k: int| from <= k < position_from(s, c, from) ==> s[k] != c,
        position_from(s, c, from) < s.len() ==> s[position_from(s, c, from)] == c,
    decreases s.len() - from,
{
    if from < s.len() && s[from] != c {
        lemma_position_from(s, c, from + 1);
    }
}

fn find_from(v: &Vec<char>, c: char, from: usize) -> (r: usize)
    requires
        from <= v@.len(),
    ensures
        r == position_from(v@, c, from as int),
        from <= r <= v@.len(),
{
    let mut i: usize = from;
    while i < v.len() && v[i] != c
        invariant
            from <= i <= v@.len(),
            position_from(v@, c, from as int) == position_from(v@, c, i as int),
        decreases v@.len() - i,
    {
        i = i + 1;
    }
    i
}

/// The text before and the text after the first `c`, if there is one.
pub open spec fn split_first(s: Seq<char>, c: char) -> Option<(Seq<char>, Seq<char>)> {
    let p = position_from(s, c, 0);
    if p < s.len() {
        Some((s.take(p), s.skip(p + 1)))
    } else {
        None
    }
}

pub fn split_once(s: &str, c: char) -> (r: Option<(String, String)>)
    ensures
        match r {
            Some(pair) => split_first(s@, c) == Some((pair.0@, pair.1@)),
            None => split_first(s@, c) is None,
        },
{
    let v = chars_of(s);
    let p = find_from(&v, c, 0);
    if p < v.len() {
        let a = text_of_range(&v, 0, p);
        let b = text_of_range(&v, p + 1, v.len());
        assert(a@ =~= s@.take(p as int));
        assert(b@ =~= s@.skip(p + 1));
        Some((a, b))
    } else {
        None
    }
}

/// The pieces of `s` between the occurrences of `c`, from position `from` on.
pub open spec fn pieces_from(s: Seq<char>, c: char, from: int) -> Seq<Seq<char>>
    decreases s.len() - from, 1int,
{
    pieces_cut(s, c, from, position_from(s, c, from))
}

pub open spec fn pieces_cut(s: Seq<char>, c: char, from: int, p: int) -> Seq<Seq<char>>
    decreases s.len() - from, 0int,
{
    if from <= p < s.len() {
        seq![s.subrange(from, p)] + pieces_from(s, c, p + 1)
    } else {
        seq![s.subrange(from, s.len() as int)]
    }
}

/// The pieces of `s` between the occurrences of `c`.
pub open spec fn pieces(s: Seq<char>, c: char) -> Seq<Seq<char>> {
    pieces_from(s, c, 0)
}

/// The views of a list of texts.
pub open spec fn texts(v: Seq<String>) -> Seq<Seq<char>> {
    v.map_values(|s: String| s@)
}

/// The pieces of the text between the occurrences of `c`.
pub fn split_all(s: &str, c: char) -> (r: Vec<String>)
    ensures
        texts(r@) == pieces(s@, c),
{
    let v = chars_of(s);
    let mut out: Vec<String> = Vec::new();
    let mut from: usize = 0;
    let mut p = find_from(&v, c, 0);
    assert(texts(out@) =~= Seq::<Seq<char>>::empty());
    assert(texts(out@) + pieces_from(v@, c, 0) =~= pieces(s@, c));
    while p < v.len()
        invariant
            from <= p <= v@.len(),
            v@ == s@,
            p == position_from(v@, c, from as int),
            texts(out@) + pieces_from(v@, c, from as int) == pieces(s@, c),
        decreases v@.len() - from,
    {
        let piece = text_of_range(&v, from, p);
        let ghost before = out@;
        out.push(piece);
        proof {
            assert(texts(out@) =~= texts(before).push(piece@));
            assert(texts(before) + pieces_from(v@, c, from as int) =~= texts(out@) + pieces_from(
                v@,
                c,
                p + 1,
            ));
        }
        from = p + 1;
        p = find_from(&v, c, from);
    }
    let piece = text_of_range(&v, from, v.len());
    let ghost before = out@;
    out.push(piece);
    assert(texts(out@) =~= texts(before).push(piece@));
    assert(texts(before) + pieces_from(v@, c, from as int) =~= texts(out@));
    out
}

/// `needle` stands in `s` at position `at`.
pub open spec fn stands_at(s: Seq<char>, needle: Seq<char>, at: int) -> bool {
    0 <= at <= s.len() - needle.len() && s.subrange(at, at + needle.len()) == needle
}

/// `needle` stands somewhere in `s`.
pub open spec fn has_text(s: Seq<char>, needle: Seq<char>) -> bool {
    exists|at: int| stands_at(s, needle, at)
}

fn matches_at(v: &Vec<char>, n: &Vec<char>, at: usize) -> (r: bool)
    requires
        at + n@.len() <= v@.len(),
    ensures
        r == stands_at(v@, n@, at as int),
{
    let total: usize = v.len();
    let mut i: usize = 0;
    while i < n.len()
        invariant
            i <= n@.len(),
            at + n@.len() <= v@.len() == total,
            forall|k: int| 0 <= k < i ==> v@[at + k] == n@[k],
        decreases n@.len() - i,
    {
        if v[at + i] != n[i] {
            assert(v@.subrange(at as int, at + n@.len())[i as int] != n@[i as int]);
            return false;
        }
        i = i + 1;
    }
    assert(v@.subrange(at as int, at + n@.len()) =~= n@);
    true
}

/// Whether `needle` stands somewhere in the text.
pub fn contains_text(s: &str, needle: &str) -> (r: bool)
    ensures
        r == has_text(s@, needle@),
{
    let v = chars_of(s);
    let n = chars_of(needle);
    if n.len() > v.len() {
        return false;
    }
    let last: usize = v.len() - n.len();
    let mut at: usize = 0;
    while at <= last
        invariant
            v@ == s@,
            n@ == needle@,
            last == v@.len() - n@.len(),
            at <= last + 1,
            forall|k: int| 0 <= k < at ==> !stands_at(s@, needle@, k),
        decreases last + 1 - at,
    {
        if matches_at(&v, &n, at) {
            return true;
        }
        if at == last {
            return false;
        }
        at = at + 1;
    }
    false
}

/// What follows `prefix`, if the text starts with it.
pub fn strip_prefix(s: &str, prefix: &str) -> (r: Option<String>)
    ensures
        match r {
            Some(rest) => s@ == prefix@ + rest@,
            None => !stands_at(s@, prefix@, 0),
        },
{
    let v = chars_of(s);
    let n = chars_of(prefix);
    if n.len() <= v.len() && matches_at(&v, &n, 0) {
        let rest = text_of_range(&v, n.len(), v.len());
        assert(s@ =~= s@.subrange(0, n@.len() as int) + rest@);
        Some(rest)
    } else {
        None
    }
}

/// An ASCII upper-case letter in lower case; every other character unchanged.
pub open spec fn lower_char(c: char) -> char {
    if 'A' <= c <= 'Z' {
        (c as u8 + 32) as char
    } else {
        c
    }
}

/// `s` with its ASCII upper-case letters in lower case.
pub open spec fn lower(s: Seq<char>) -> Seq<char> {
    s.map_values(|c: char| lower_char(c))
}

pub fn ascii_lowercase(s: &str) -> (r: String)
    ensures
        r@ == lower(s@),
{
    let v = chars_of(s);
    let mut r = String::new();
    let mut i: usize = 0;
    while i < v.len()
        invariant
            i <= v@.len(),
            r@ == lower(v@.take(i as int)),
        decreases v@.len() - i,
    {
        let c = v[i];
        let l: char = if 'A' <= c && c <= 'Z' {
            (c as u8 + 32) as char
        } else {
            c
        };
        r.push(l);
        assert(lower(v@.take(i + 1)) =~= lower(v@.take(i as int)).push(lower_char(c)));
        i = i + 1;
    }
    assert(v@.take(v@.len() as int) =~= s@);
    r
}

// ---------------------------------------------------------------------------
// Order
// ---------------------------------------------------------------------------

/// `a` and `b` agree up to position `i`, where `a` ends or holds the smaller byte.
pub open spec fn differ_at(a: Seq<u8>, b: Seq<u8>, i: int) -> bool {
    &&& 0 <= i <= a.len()
    &&& i < b.len()
    &&& forall|j: int| 0 <= j < i ==> a[j] == b[j]
    &&& i < a.len() ==> a[i] < b[i]
}

/// `a` comes before `b` in the lexicographic order of bytes.
pub open spec fn bytes_before(a: Seq<u8>, b: Seq<u8>) -> bool {
    exists|i: int| differ_at(a, b, i)
}

/// `a` comes before `b` in the order of strings: that of their UTF-8 bytes.
pub open spec fn text_before(a: Seq<char>, b: Seq<char>) -> bool {
    bytes_before(encode_utf8(a), encode_utf8(b))
}

pub proof fn text_order_irreflexive(a: Seq<char>)
    ensures
        !text_before(a, a),
{
}

pub proof fn text_order_transitive(a: Seq<char>, b: Seq<char>, c: Seq<char>)
    requires
        text_before(a, b),
        text_before(b, c),
    ensures
        text_before(a, c),
{
    let x = encode_utf8(a);
    let y = encode_utf8(b);
    let z = encode_utf8(c);
    let i = choose|i: int| differ_at(x, y, i);
    let k = choose|k: int| differ_at(y, z, k);
    let m = if i < k { i } else { k };
    assert(differ_at(x, z, m));
}

/// What stands in front of both texts does not matter to their order.
pub proof fn common_prefix_keeps_order(prefix: Seq<u8>, a: Seq<u8>, b: Seq<u8>)
    ensures
        bytes_before(prefix + a, prefix + b) == bytes_before(a, b),
{
    let n = prefix.len() as int;
    let x = prefix + a;
    let y = prefix + b;
    if bytes_before(a, b) {
        let i = choose|i: int| differ_at(a, b, i);
        assert(differ_at(x, y, n + i));
    }
    if bytes_before(x, y) {
        let k = choose|k: int| differ_at(x, y, k);
        assert(k >= n) by {
            if k < n {
                assert(x[k] == y[k]);
            }
        }
        assert forall|j: int| 0 <= j < k - n implies a[j] == b[j] by {
            assert(x[n + j] == y[n + j]);
        }
        assert(differ_at(a, b, k - n));
    }
}

proof fn lemma_encode_injective(a: Seq<char>, b: Seq<char>)
    requires
        encode_utf8(a) == encode_utf8(b),
    ensures
        a == b,
{
    vstd::utf8::encode_utf8_decode_utf8(a);
    vstd::utf8::encode_utf8_decode_utf8(b);
}

/// How one text stands to another in the order of strings.
#[derive(Clone, Copy, PartialEq, Eq, Structural)]
pub enum TextOrder {
    Before,
    Same,
    After,
}

/// The order of two texts.
pub fn text_order(a: &str, b: &str) -> (r: TextOrder)
    ensures
        (r is Before) == text_before(a@, b@),
        (r is Same) == (a@ == b@),
        (r is After) == text_before(b@, a@),
{
    let x = a.as_bytes();
    let y = b.as_bytes();
    proof {
        text_order_irreflexive(a@);
        if text_before(a@, b@) && text_before(b@, a@) {
            text_order_transitive(a@, b@, a@);
        }
    }
    let mut i: usize = 0;
    while i < x.len() && i < y.len()
        invariant
            x@ == encode_utf8(a@),
            y@ == encode_utf8(b@),
            i <= x@.len(),
            i <= y@.len(),
            forall|j: int| 0 <= j < i ==> x@[j] == y@[j],
            !(text_before(a@, b@) && text_before(b@, a@)),
            !text_before(a@, a@),
        decreases x@.len() - i,
    {
        if x[i] < y[i] {
            assert(differ_at(x@, y@, i as int));
            return TextOrder::Before;
        }
        if y[i] < x[i] {
            assert(differ_at(y@, x@, i as int));
            return TextOrder::After;
        }
        i = i + 1;
    }
    if i < y.len() {
        assert(differ_at(x@, y@, i as int));
        TextOrder::Before
    } else if i < x.len() {
        assert(differ_at(y@, x@, i as int));
        TextOrder::After
    } else {
        proof {
            assert(x@ =~= y@);
            lemma_encode_injective(a@, b@);
        }
        TextOrder::Same
    }
}

// ---------------------------------------------------------------------------
// Laws
// ---------------------------------------------------------------------------

/// All characters of a text belong to the set.
pub open spec fn all_in(s: Seq<char>, set: CharSet) -> bool {
    forall|i: int| 0 <= i < s.len() ==> set.holds(#[trigger] s[i])
}

/// A text that neither begins nor ends with a character of the set.
pub open spec fn bare(s: Seq<char>, set: CharSet) -> bool {
    s.len() > 0 ==> !set.holds(s[0]) && !set.holds(s.last())
}

proof fn lemma_trim_start(before: Seq<char>, s: Seq<char>, set: CharSet)
    requires
        all_in(before, set),
        s.len() > 0 ==> !set.holds(s[0]),
    ensures
        trimmed_start(before + s, set) == s,
    decreases before.len(),
{
    if before.len() == 0 {
        assert(before + s =~= s);
    } else {
        assert(set.holds(before[0]));
        assert((before + s).skip(1) =~= before.skip(1) + s);
        assert(all_in(before.skip(1), set));
        lemma_trim_start(before.skip(1), s, set);
    }
}

proof fn lemma_trim_end(s: Seq<char>, after: Seq<char>, set: CharSet)
    requires
        all_in(after, set),
        s.len() > 0 ==> !set.holds(s.last()),
    ensures
        trimmed_end(s + after, set) == s,
    decreases after.len(),
{
    if after.len() == 0 {
        assert(s + after =~= s);
    } else {
        assert(set.holds(after[after.len() - 1]));
        assert((s + after).drop_last() =~= s + after.drop_last());
        assert(all_in(after.drop_last(), set));
        lemma_trim_end(s, after.drop_last(), set);
    }
}

/// Trimming drops what stands round a bare text, on both sides, and nothing of the text itself.
pub proof fn trimming_drops_the_margins(
    before: Seq<char>,
    s: Seq<char>,
    after: Seq<char>,
    set: CharSet,
)
    requires
        all_in(before, set),
        all_in(after, set),
        bare(s, set),
    ensures
        trimmed(before + s + after, set) == s,
{
    if s.len() > 0 {
        assert(before + s + after =~= before + (s + after));
        lemma_trim_start(before, s + after, set);
        lemma_trim_end(s, after, set);
    } else {
        let margins = before + after;
        assert(before + s + after =~= margins + Seq::<char>::empty());
        assert forall|i: int| 0 <= i < margins.len() implies set.holds(#[trigger] margins[i]) by {
            if i < before.len() {
                assert(margins[i] == before[i]);
            } else {
                assert(margins[i] == after[i - before.len()]);
            }
        }
        lemma_trim_start(margins, Seq::empty(), set);
        lemma_trim_end(Seq::empty(), Seq::empty(), set);
        assert(Seq::<char>::empty() + Seq::<char>::empty() =~= Seq::<char>::empty());
    }
}

/// A text is blank exactly where all its characters are white space.
pub proof fn blank_texts_are_white_space(s: Seq<char>)
    ensures
        blank(s) == all_in(s, CharSet::WhiteSpace),
    decreases s.len(),
{
    let set = CharSet::WhiteSpace;
    if all_in(s, set) {
        let none = Seq::<char>::empty();
        assert(s + none + none =~= s);
        trimming_drops_the_margins(s, none, none, set);
    } else {
        let i = choose|i: int| 0 <= i < s.len() && !set.holds(#[trigger] s[i]);
        lemma_start_keeps(s, set, i);
        let kept = trimmed_start(s, set);
        lemma_end_keeps(kept, set, i - (s.len() - kept.len()));
    }
}

proof fn lemma_start_keeps(s: Seq<char>, set: CharSet, i: int)
    requires
        0 <= i < s.len(),
        !set.holds(s[i]),
    ensures
        s.len() - i <= trimmed_start(s, set).len() <= s.len(),
        trimmed_start(s, set) == s.skip(s.len() - trimmed_start(s, set).len()),
    decreases s.len(),
{
    if set.holds(s[0]) {
        lemma_start_keeps(s.skip(1), set, i - 1);
        let n = trimmed_start(s, set).len();
        assert(s.skip(1).skip(s.len() - 1 - n) =~= s.skip(s.len() - n));
    } else {
        assert(s.skip(0) =~= s);
    }
}

proof fn lemma_end_keeps(s: Seq<char>, set: CharSet, i: int)
    requires
        0 <= i < s.len(),
        !set.holds(s[i]),
    ensures
        trimmed_end(s, set).len() > i,
    decreases s.len(),
{
    if set.holds(s.last()) {
        lemma_end_keeps(s.drop_last(), set, i);
    }
}

/// Blanks, tabs and line ends are white space; letters, digits and the signs of ASCII are not.
pub proof fn white_space_of_ascii(c: char)
    ensures
        white_space(' '),
        white_space('\t'),
        white_space('\n'),
        white_space('\r'),
        '!' <= c <= '~' ==> !white_space(c),
{
}

/// A text is cut at the first place where the character stands.
pub proof fn cutting_is_at_the_first(a: Seq<char>, c: char, b: Seq<char>)
    requires
        !a.contains(c),
    ensures
        split_first(a + seq![c] + b, c) == Some((a, b)),
        split_first(a, c) is None,
{
    let s = a + seq![c] + b;
    lemma_position_from(s, c, 0);
    lemma_position_from(a, c, 0);
    let p = position_from(s, c, 0);
    assert(s[a.len() as int] == c);
    if p < a.len() {
        assert(a.contains(s[p]));
    }
    assert(s.take(p) =~= a);
    assert(s.skip(p + 1) =~= b);
    let q = position_from(a, c, 0);
    if q < a.len() {
        assert(a.contains(a[q]));
    }
}

proof fn lemma_pieces_shift(a: Seq<char>, b: Seq<char>, c: char, from: int)
    requires
        0 <= from <= b.len(),
    ensures
        position_from(a + b, c, a.len() + from) == a.len() + position_from(b, c, from),
        pieces_from(a + b, c, a.len() + from) == pieces_from(b, c, from),
    decreases b.len() - from,
{
    let s = a + b;
    let n = a.len() as int;
    lemma_position_shift(a, b, c, from);
    lemma_position_from(b, c, from);
    let p = position_from(b, c, from);
    if p < b.len() {
        lemma_pieces_shift(a, b, c, p + 1);
        assert(s.subrange(n + from, n + p) =~= b.subrange(from, p));
    } else {
        assert(s.subrange(n + from, s.len() as int) =~= b.subrange(from, b.len() as int));
    }
}

proof fn lemma_position_shift(a: Seq<char>, b: Seq<char>, c: char, from: int)
    requires
        0 <= from <= b.len(),
    ensures
        position_from(a + b, c, a.len() + from) == a.len() + position_from(b, c, from),
    decreases b.len() - from,
{
    if from < b.len() && b[from] != c {
        lemma_position_shift(a, b, c, from + 1);
    }
}

/// Splitting gives what stands before the first separator, and then the pieces of the rest; a
/// text without a separator is one piece.
pub proof fn splitting_goes_piece_by_piece(a: Seq<char>, c: char, b: Seq<char>)
    requires
        !a.contains(c),
    ensures
        pieces(a + seq![c] + b, c) == seq![a] + pieces(b, c),
        pieces(a, c) == seq![a],
{
    let head = a + seq![c];
    let s = head + b;
    lemma_position_from(s, c, 0);
    lemma_position_from(a, c, 0);
    let p = position_from(s, c, 0);
    assert(s[a.len() as int] == c);
    if p < a.len() {
        assert(a.contains(s[p]));
    }
    assert(s.subrange(0, p) =~= a);
    lemma_pieces_shift(head, b, c, 0);
    let q = position_from(a, c, 0);
    if q < a.len() {
        assert(a.contains(a[q]));
    }
    assert(a.subrange(0, a.len() as int) =~= a);
}

/// A text holds another exactly where it is that other with something round it.
pub proof fn texts_hold_their_parts(a: Seq<char>, needle: Seq<char>, b: Seq<char>)
    ensures
        has_text(a + needle + b, needle),
{
    let s = a + needle + b;
    assert(s.subrange(a.len() as int, a.len() as int + needle.len()) =~= needle);
    assert(stands_at(s, needle, a.len() as int));
}

/// A text that is held stands somewhere, with something before and something behind it.
pub proof fn held_texts_stand_somewhere(s: Seq<char>, needle: Seq<char>)
    requires
        has_text(s, needle),
    ensures
        exists|a: Seq<char>, b: Seq<char>| s == #[trigger] (a + needle + b),
{
    let at = choose|at: int| stands_at(s, needle, at);
    let a = s.take(at);
    let b = s.skip(at + needle.len());
    assert(s =~= a + needle + b);
}

/// Lower case changes the capital letters of ASCII to their small ones, and nothing else.
pub proof fn lower_case_changes_capitals_only(s: Seq<char>, i: int)
    requires
        0 <= i < s.len(),
    ensures
        lower(s).len() == s.len(),
        'A' <= s[i] <= 'Z' ==> lower(s)[i] as int == s[i] as int + 32,
        !('A' <= s[i] <= 'Z') ==> lower(s)[i] == s[i],
{
}

/// White space is what separates words, lines and paragraphs, in whatever script: the blanks and
/// breaks of ASCII, the next-line control, the spaces of fixed width and those that do not break.
pub proof fn white_space_of_all_scripts(c: char)
    ensures
        white_space(c) <==> seq![
            '\t',
            '\n',
            '\u{b}',
            '\u{c}',
            '\r',
            ' ',
            '\u{85}',
            '\u{a0}',
            '\u{1680}',
            '\u{2000}',
            '\u{2001}',
            '\u{2002}',
            '\u{2003}',
            '\u{2004}',
            '\u{2005}',
            '\u{2006}',
            '\u{2007}',
            '\u{2008}',
            '\u{2009}',
            '\u{200a}',
            '\u{2028}',
            '\u{2029}',
            '\u{202f}',
            '\u{205f}',
            '\u{3000}',
        ].contains(c),
{
    let all = seq![
        '\t',
        '\n',
        '\u{b}',
        '\u{c}',
        '\r',
        ' ',
        '\u{85}',
        '\u{a0}',
        '\u{1680}',
        '\u{2000}',
        '\u{2001}',
        '\u{2002}',
        '\u{2003}',
        '\u{2004}',
        '\u{2005}',
        '\u{2006}',
        '\u{2007}',
        '\u{2008}',
        '\u{2009}',
        '\u{200a}',
        '\u{2028}',
        '\u{2029}',
        '\u{202f}',
        '\u{205f}',
        '\u{3000}',
    ];
    let u = c as u32;
    if white_space(c) {
        let i = if u <= 0x0d {
            u - 9
        } else if u == 0x20 {
            5
        } else if u == 0x85 {
            6
        } else if u == 0xa0 {
            7
        } else if u == 0x1680 {
            8
        } else if u <= 0x200a {
            9 + (u - 0x2000)
        } else if u == 0x2028 {
            20
        } else if u == 0x2029 {
            21
        } else if u == 0x202f {
            22
        } else if u == 0x205f {
            23
        } else {
            24int
        };
        assert(all[i] == c);
    }
}

/// Where two series of bytes begin alike, the next byte decides which comes first; one that ends
/// there comes before any that goes on.
pub proof fn the_first_difference_decides(
    common: Seq<u8>,
    x: u8,
    y: u8,
    rest: Seq<u8>,
    other_rest: Seq<u8>,
)
    ensures
        x < y ==> bytes_before(common.push(x) + rest, common.push(y) + other_rest),
        bytes_before(common.push(x) + rest, common.push(y) + other_rest) && x != y ==> x < y,
        bytes_before(common, common.push(y) + other_rest),
        !bytes_before(common.push(x) + rest, common),
{
    let a = common.push(x) + rest;
    let b = common.push(y) + other_rest;
    let n = common.len() as int;
    assert(a[n] == x && b[n] == y);
    assert forall|j: int| 0 <= j < n implies a[j] == common[j] && b[j] == common[j] by {}
    if x < y {
        assert(differ_at(a, b, n));
    }
    if bytes_before(a, b) && x != y {
        let i = choose|i: int| differ_at(a, b, i);
        if i < n {
            assert(a[i] == b[i]);
        } else if i > n {
            assert(a[n] == b[n]);
        }
    }
    assert(differ_at(common, b, n));
    if bytes_before(a, common) {
        let i = choose|i: int| differ_at(a, common, i);
        assert(a[i] == common[i]);
    }
}

/// Texts are ordered as their bytes in UTF-8.
pub proof fn texts_are_ordered_by_their_bytes(a: Seq<char>, b: Seq<char>)
    ensures
        text_before(a, b) == bytes_before(encode_utf8(a), encode_utf8(b)),
{
}

}
