//! Character-sequence utilities shared by the chart, prompt and corpus logic.
//!
//! Strings are modelled by their character sequences (`Seq<char>`); the
//! executable side works on `Vec<char>` and builds `String`s character by
//! character.
use vstd::prelude::*;

verus! {

pub assume_specification[ String::push ](s: &mut String, ch: char)
    ensures
        final(s)@ == old(s)@.push(ch),
;

/// The characters of a string slice, in order.
pub fn chars_of(s: &str) -> (v: Vec<char>)
    ensures
        v@ == s@,
{
    let mut v: Vec<char> = Vec::new();
    for c in it: s.chars()
        invariant
            v@ == it.seq().take(it.index() as int),
            it.seq() == s@,
    {
        v.push(c);
    }
    v
}

/// A `String` holding exactly the given characters.
pub fn string_from_chars(cs: &[char]) -> (s: String)
    ensures
        s@ == cs@,
{
    let mut s = String::new();
    let mut i: usize = 0;
    while i < cs.len()
        invariant
            i <= cs@.len(),
            s@ == cs@.take(i as int),
        decreases cs@.len() - i,
    {
        s.push(cs[i]);
        i = i + 1;
        assert(cs@.take(i as int) == cs@.take(i - 1 as int).push(cs@[i - 1]));
    }
    assert(cs@.take(cs@.len() as int) == cs@);
    s
}

/// Appends every character of `src` to `dst`.
pub fn push_all(dst: &mut Vec<char>, src: &[char])
    ensures
        final(dst)@ == old(dst)@ + src@,
{
    let mut i: usize = 0;
    while i < src.len()
        invariant
            i <= src@.len(),
            dst@ == old(dst)@ + src@.take(i as int),
        decreases src@.len() - i,
    {
        dst.push(src[i]);
        i = i + 1;
        assert(src@.take(i as int) == src@.take(i - 1 as int).push(src@[i - 1]));
    }
    assert(src@.take(src@.len() as int) == src@);
}

/// Appends every character of a string slice to `dst`.
pub fn push_str(dst: &mut Vec<char>, s: &str)
    ensures
        final(dst)@ == old(dst)@ + s@,
{
    let cs = chars_of(s);
    push_all(dst, cs.as_slice());
}

// ---------------------------------------------------------------------------
// Whitespace and trimming
// ---------------------------------------------------------------------------

/// Characters with the Unicode `White_Space` property.
pub open spec fn is_ws(c: char) -> bool {
    let u = c as u32;
    ||| 9 <= u <= 13
    ||| u == 32
    ||| u == 0x85
    ||| u == 0xA0
    ||| u == 0x1680
    ||| 0x2000 <= u <= 0x200A
    ||| u == 0x2028
    ||| u == 0x2029
    ||| u == 0x202F
    ||| u == 0x205F
    ||| u == 0x3000
}

pub fn is_whitespace_char(c: char) -> (b: bool)
    ensures
        b == is_ws(c),
{
    let u = c as u32;
    (9 <= u && u <= 13) || u == 32 || u == 0x85 || u == 0xA0 || u == 0x1680 || (0x2000 <= u && u
        <= 0x200A) || u == 0x2028 || u == 0x2029 || u == 0x202F || u == 0x205F || u == 0x3000
}

/// `s` without its leading whitespace.
pub open spec fn ltrim(s: Seq<char>) -> Seq<char>
    decreases s.len(),
{
    if s.len() > 0 && is_ws(s[0]) {
        ltrim(s.drop_first())
    } else {
        s
    }
}

/// `s` without its trailing whitespace.
pub open spec fn rtrim(s: Seq<char>) -> Seq<char>
    decreases s.len(),
{
    if s.len() > 0 && is_ws(s.last()) {
        rtrim(s.drop_last())
    } else {
        s
    }
}

/// `s` without leading and trailing whitespace (`str::trim`).
pub open spec fn trim(s: Seq<char>) -> Seq<char> {
    rtrim(ltrim(s))
}

proof fn lemma_ltrim_start(s: Seq<char>)
    ensures
        ltrim(s).len() == 0 || !is_ws(ltrim(s)[0]),
        ltrim(ltrim(s)) == ltrim(s),
    decreases s.len(),
{
    if s.len() > 0 && is_ws(s[0]) {
        lemma_ltrim_start(s.drop_first());
    }
}

proof fn lemma_rtrim_prefix(s: Seq<char>)
    ensures
        rtrim(s).len() <= s.len(),
        rtrim(s) == s.take(rtrim(s).len() as int),
        rtrim(s).len() == 0 || !is_ws(rtrim(s).last()),
        rtrim(rtrim(s)) == rtrim(s),
    decreases s.len(),
{
    if s.len() > 0 && is_ws(s.last()) {
        lemma_rtrim_prefix(s.drop_last());
        let r = rtrim(s.drop_last());
        assert(r =~= s.take(r.len() as int));
    } else {
        assert(s.take(s.len() as int) =~= s);
    }
}

/// Trimming twice is trimming once.
pub proof fn lemma_trim_idempotent(s: Seq<char>)
    ensures
        trim(trim(s)) == trim(s),
{
    let l = ltrim(s);
    lemma_ltrim_start(s);
    lemma_rtrim_prefix(l);
    let y = rtrim(l);
    if y.len() > 0 {
        assert(y[0] == l[0]);
    }
    assert(ltrim(y) == y);
}

proof fn lemma_ltrim_suffix(s: Seq<char>)
    ensures
        ltrim(s).len() <= s.len(),
        ltrim(s) == s.subrange(s.len() - ltrim(s).len(), s.len() as int),
    decreases s.len(),
{
    if s.len() > 0 && is_ws(s[0]) {
        lemma_ltrim_suffix(s.drop_first());
        let l = ltrim(s.drop_first());
        assert(l =~= s.subrange(s.len() - l.len(), s.len() as int));
    } else {
        assert(s.subrange(0, s.len() as int) =~= s);
    }
}

/// A trimmed text neither starts nor ends with whitespace.
pub proof fn lemma_trim_ends(s: Seq<char>)
    ensures
        trim(s).len() == 0 || (!is_ws(trim(s)[0]) && !is_ws(trim(s).last())),
{
    let l = ltrim(s);
    lemma_ltrim_start(s);
    lemma_rtrim_prefix(l);
    let y = rtrim(l);
    if y.len() > 0 {
        assert(y[0] == l[0]);
    }
}

/// The trimmed text is a slice of the text.
pub proof fn lemma_trim_slice(s: Seq<char>)
    ensures
        exists|a: int, b: int| 0 <= a <= b <= s.len() && s.subrange(a, b) == trim(s),
        trim(s).len() <= s.len(),
{
    lemma_ltrim_suffix(s);
    let l = ltrim(s);
    lemma_rtrim_prefix(l);
    let a = s.len() - l.len();
    let b = a + rtrim(l).len();
    assert(s.subrange(a, b) =~= rtrim(l));
}

/// What a slice of a text holds, the text holds.
pub proof fn lemma_contains_slice(s: Seq<char>, a: int, b: int, p: Seq<char>)
    requires
        0 <= a <= b <= s.len(),
        contains_seq(s.subrange(a, b), p),
    ensures
        contains_seq(s, p),
{
    let x = s.subrange(a, b);
    let i = choose|i: int| occurs_at(x, p, i);
    assert(s.subrange(a + i, a + i + p.len()) =~= x.subrange(i, i + p.len()));
    assert(occurs_at(s, p, a + i));
}

proof fn lemma_ltrim_step(s: Seq<char>, i: int)
    requires
        0 <= i < s.len(),
        is_ws(s[i]),
    ensures
        ltrim(s.subrange(i, s.len() as int)) == ltrim(s.subrange(i + 1, s.len() as int)),
{
    assert(s.subrange(i, s.len() as int).drop_first() =~= s.subrange(i + 1, s.len() as int));
}

proof fn lemma_rtrim_step(s: Seq<char>, i: int, j: int)
    requires
        0 <= i < j <= s.len(),
        is_ws(s[j - 1]),
    ensures
        rtrim(s.subrange(i, j)) == rtrim(s.subrange(i, j - 1)),
{
    assert(s.subrange(i, j).drop_last() =~= s.subrange(i, j - 1));
}

/// Copies `s[from..to]`.
pub fn slice_chars(s: &[char], from: usize, to: usize) -> (r: Vec<char>)
    requires
        from <= to <= s@.len(),
    ensures
        r@ == s@.subrange(from as int, to as int),
{
    let mut r: Vec<char> = Vec::new();
    let mut k = from;
    while k < to
        invariant
            from <= k <= to <= s@.len(),
            r@ == s@.subrange(from as int, k as int),
        decreases to - k,
    {
        r.push(s[k]);
        k = k + 1;
        assert(s@.subrange(from as int, k as int) == s@.subrange(from as int, k - 1 as int).push(
            s@[k - 1],
        ));
    }
    r
}

/// The index range of `trim(s)` inside `s`.
pub fn trim_bounds(s: &[char]) -> (r: (usize, usize))
    ensures
        r.0 <= r.1 <= s@.len(),
        s@.subrange(r.0 as int, r.1 as int) == trim(s@),
{
    let n = s.len();
    let mut i: usize = 0;
    proof {
        assert(s@.subrange(0, n as int) =~= s@);
    }
    while i < n && is_whitespace_char(s[i])
        invariant
            i <= n == s@.len(),
            ltrim(s@) == ltrim(s@.subrange(i as int, n as int)),
        decreases n - i,
    {
        proof {
            lemma_ltrim_step(s@, i as int);
        }
        i = i + 1;
    }
    let mut j: usize = n;
    while j > i && is_whitespace_char(s[j - 1])
        invariant
            i <= j <= n == s@.len(),
            ltrim(s@) == s@.subrange(i as int, n as int),
            rtrim(s@.subrange(i as int, n as int)) == rtrim(s@.subrange(i as int, j as int)),
        decreases j - i,
    {
        proof {
            lemma_rtrim_step(s@, i as int, j as int);
        }
        j = j - 1;
    }
    (i, j)
}

/// `trim(s)` as a fresh vector.
pub fn trim_chars(s: &[char]) -> (r: Vec<char>)
    ensures
        r@ == trim(s@),
{
    let (a, b) = trim_bounds(s);
    slice_chars(s, a, b)
}

// ---------------------------------------------------------------------------
// Substring search
// ---------------------------------------------------------------------------

/// `p` occurs in `s` starting at index `i`.
pub open spec fn occurs_at(s: Seq<char>, p: Seq<char>, i: int) -> bool {
    0 <= i && i + p.len() <= s.len() && s.subrange(i, i + p.len()) == p
}

/// `p` occurs somewhere in `s` (`str::contains`).
pub open spec fn contains_seq(s: Seq<char>, p: Seq<char>) -> bool {
    exists|i: int| occurs_at(s, p, i)
}

/// `i` is the first occurrence of `p` in `s` (`str::find`).
pub open spec fn is_first_occurrence(s: Seq<char>, p: Seq<char>, i: int) -> bool {
    &&& occurs_at(s, p, i)
    &&& forall|j: int| 0 <= j < i ==> !occurs_at(s, p, j)
}

/// `s` begins with `p`.
pub open spec fn starts_with(s: Seq<char>, p: Seq<char>) -> bool {
    occurs_at(s, p, 0)
}

/// `s` ends with `p`.
pub open spec fn ends_with(s: Seq<char>, p: Seq<char>) -> bool {
    p.len() <= s.len() && occurs_at(s, p, s.len() - p.len())
}

pub fn matches_at(s: &[char], p: &[char], i: usize) -> (b: bool)
    requires
        i <= s@.len(),
    ensures
        b == occurs_at(s@, p@, i as int),
{
    if p.len() > s.len() - i {
        return false;
    }
    let mut k: usize = 0;
    while k < p.len()
        invariant
            i + p@.len() <= s@.len(),
            s@.len() == s.len(),
            k <= p@.len(),
            forall|t: int| 0 <= t < k ==> s@[i + t] == p@[t],
        decreases p@.len() - k,
    {
        if s[i + k] != p[k] {
            assert(s@.subrange(i as int, i + p@.len())[k as int] != p@[k as int]);
            return false;
        }
        k = k + 1;
    }
    assert(s@.subrange(i as int, i + p@.len()) =~= p@);
    true
}

/// The first index at which `p` occurs in `s`, if any.
pub fn find_seq(s: &[char], p: &[char]) -> (r: Option<usize>)
    ensures
        match r {
            Some(i) => is_first_occurrence(s@, p@, i as int),
            None => !contains_seq(s@, p@),
        },
{
    let mut i: usize = 0;
    while i < s.len()
        invariant
            i <= s@.len(),
            forall|j: int| 0 <= j < i ==> !occurs_at(s@, p@, j),
        decreases s@.len() - i,
    {
        if matches_at(s, p, i) {
            return Some(i);
        }
        i = i + 1;
    }
    if matches_at(s, p, i) {
        return Some(i);
    }
    assert forall|j: int| !occurs_at(s@, p@, j) by {
        if 0 <= j <= i {
        }
    }
    None
}

pub fn contains_chars(s: &[char], p: &[char]) -> (b: bool)
    ensures
        b == contains_seq(s@, p@),
{
    match find_seq(s, p) {
        Some(_) => true,
        None => false,
    }
}

pub fn ends_with_chars(s: &[char], p: &[char]) -> (b: bool)
    ensures
        b == ends_with(s@, p@),
{
    if p.len() > s.len() {
        false
    } else {
        matches_at(s, p, s.len() - p.len())
    }
}

pub fn starts_with_chars(s: &[char], p: &[char]) -> (b: bool)
    ensures
        b == starts_with(s@, p@),
{
    matches_at(s, p, 0)
}

/// `s` contains the character `c`.
pub fn has_char(s: &[char], c: char) -> (b: bool)
    ensures
        b == s@.contains(c),
{
    let mut i: usize = 0;
    while i < s.len()
        invariant
            i <= s@.len(),
            forall|j: int| 0 <= j < i ==> s@[j] != c,
        decreases s@.len() - i,
    {
        if s[i] == c {
            return true;
        }
        i = i + 1;
    }
    false
}

// ---------------------------------------------------------------------------
// Decimal rendering
// ---------------------------------------------------------------------------

pub open spec fn digit_char(d: nat) -> char {
    if d == 0 {
        '0'
    } else if d == 1 {
        '1'
    } else if d == 2 {
        '2'
    } else if d == 3 {
        '3'
    } else if d == 4 {
        '4'
    } else if d == 5 {
        '5'
    } else if d == 6 {
        '6'
    } else if d == 7 {
        '7'
    } else if d == 8 {
        '8'
    } else {
        '9'
    }
}

/// The decimal rendering of `n` (what `format!("{}", n)` prints).
pub open spec fn decimal(n: nat) -> Seq<char>
    decreases n,
{
    if n < 10 {
        seq![digit_char(n)]
    } else {
        decimal(n / 10).push(digit_char(n % 10))
    }
}

fn digit_to_char(d: u128) -> (c: char)
    requires
        d < 10,
    ensures
        c == digit_char(d as nat),
{
    if d == 0 {
        '0'
    } else if d == 1 {
        '1'
    } else if d == 2 {
        '2'
    } else if d == 3 {
        '3'
    } else if d == 4 {
        '4'
    } else if d == 5 {
        '5'
    } else if d == 6 {
        '6'
    } else if d == 7 {
        '7'
    } else if d == 8 {
        '8'
    } else {
        '9'
    }
}

/// Appends the decimal rendering of `n` to `dst`.
pub fn push_decimal(dst: &mut Vec<char>, n: u128)
    ensures
        final(dst)@ == old(dst)@ + decimal(n as nat),
    decreases n,
{
    if n < 10 {
        dst.push(digit_to_char(n));
        assert(old(dst)@ + decimal(n as nat) =~= old(dst)@.push(digit_char(n as nat)));
    } else {
        push_decimal(dst, n / 10);
        dst.push(digit_to_char(n % 10));
        assert(old(dst)@ + decimal(n as nat) =~= old(dst)@ + decimal((n / 10) as nat) + seq![
            digit_char((n % 10) as nat),
        ]);
    }
}

// ---------------------------------------------------------------------------
// UTF-8 length
// ---------------------------------------------------------------------------

/// Number of bytes of `c` in UTF-8.
pub open spec fn utf8_width(c: char) -> nat {
    let u = c as u32;
    if u < 0x80 {
        1
    } else if u < 0x800 {
        2
    } else if u < 0x10000 {
        3
    } else {
        4
    }
}

/// Number of bytes of `s` in UTF-8 (`str::len`).
pub open spec fn utf8_len(s: Seq<char>) -> nat
    decreases s.len(),
{
    if s.len() == 0 {
        0
    } else {
        utf8_len(s.drop_last()) + utf8_width(s.last())
    }
}

proof fn lemma_utf8_len_bound(s: Seq<char>)
    ensures
        utf8_len(s) <= 4 * s.len(),
    decreases s.len(),
{
    if s.len() > 0 {
        lemma_utf8_len_bound(s.drop_last());
    }
}

pub fn utf8_len_of(s: &[char]) -> (n: u128)
    ensures
        n == utf8_len(s@),
{
    let mut n: u128 = 0;
    let mut i: usize = 0;
    while i < s.len()
        invariant
            i <= s@.len(),
            s@.len() == s.len(),
            n == utf8_len(s@.take(i as int)),
        decreases s@.len() - i,
    {
        proof {
            lemma_utf8_len_bound(s@.take(i as int));
        }
        let u = s[i] as u32;
        let w: u128 = if u < 0x80 {
            1
        } else if u < 0x800 {
            2
        } else if u < 0x10000 {
            3
        } else {
            4
        };
        n = n + w;
        i = i + 1;
        assert(s@.take(i as int).drop_last() == s@.take(i - 1 as int));
    }
    assert(s@.take(s@.len() as int) == s@);
    n
}


// ---------------------------------------------------------------------------
// Splitting
// ---------------------------------------------------------------------------

/// The character sequences held by a sequence of vectors.
pub open spec fn views(v: Seq<Vec<char>>) -> Seq<Seq<char>> {
    v.map_values(|x: Vec<char>| x@)
}

/// The pieces of `s` between occurrences of `sep` (`str::split` with a
/// character pattern): always one more piece than there are separators.
pub open spec fn split_on(s: Seq<char>, sep: char) -> Seq<Seq<char>>
    decreases s.len(),
{
    if s.len() == 0 {
        seq![Seq::<char>::empty()]
    } else {
        let rest = split_on(s.drop_last(), sep);
        if s.last() == sep {
            rest.push(Seq::<char>::empty())
        } else {
            rest.update(rest.len() - 1, rest.last().push(s.last()))
        }
    }
}

pub proof fn lemma_split_on_nonempty(s: Seq<char>, sep: char)
    ensures
        split_on(s, sep).len() >= 1,
    decreases s.len(),
{
    if s.len() > 0 {
        lemma_split_on_nonempty(s.drop_last(), sep);
    }
}

/// Appending text without the separator extends the last piece.
pub proof fn lemma_split_on_append(s: Seq<char>, y: Seq<char>, sep: char)
    requires
        !y.contains(sep),
    ensures
        split_on(s + y, sep) == split_on(s, sep).update(
            split_on(s, sep).len() - 1,
            split_on(s, sep).last() + y,
        ),
    decreases y.len(),
{
    lemma_split_on_nonempty(s, sep);
    if y.len() == 0 {
        assert(s + y =~= s);
        assert(split_on(s, sep).last() + y =~= split_on(s, sep).last());
        assert(split_on(s, sep).update(split_on(s, sep).len() - 1, split_on(s, sep).last())
            =~= split_on(s, sep));
    } else {
        let y0 = y.drop_last();
        assert(!y0.contains(sep)) by {
            if y0.contains(sep) {
                let i = choose|i: int| 0 <= i < y0.len() && y0[i] == sep;
                assert(y[i] == sep);
            }
        }
        assert(y.last() != sep) by {
            assert(y[y.len() - 1] == y.last());
        }
        lemma_split_on_append(s, y0, sep);
        lemma_split_on_nonempty(s + y0, sep);
        assert((s + y).drop_last() =~= s + y0);
        assert((s + y).last() == y.last());
        let p = split_on(s, sep);
        let rest = split_on(s + y0, sep);
        assert(rest == p.update(p.len() - 1, p.last() + y0));
        assert(rest.len() == p.len());
        assert(rest.last() == p.last() + y0);
        assert((p.last() + y0).push(y.last()) =~= p.last() + y);
        assert(split_on(s + y, sep) == rest.update(rest.len() - 1, rest.last().push((s + y).last())));
        assert(split_on(s + y, sep) =~= p.update(p.len() - 1, p.last() + y));
    }
}

/// Splitting at a separator splits the text before it and after it apart.
pub proof fn lemma_split_on_concat(x: Seq<char>, y: Seq<char>, sep: char)
    ensures
        split_on(x + seq![sep] + y, sep) == split_on(x, sep) + split_on(y, sep),
    decreases y.len(),
{
    let xs = x + seq![sep];
    assert(xs.drop_last() =~= x);
    assert(xs.last() == sep);
    lemma_split_on_nonempty(y, sep);
    if y.len() == 0 {
        assert(xs + y =~= xs);
        assert(split_on(y, sep) =~= seq![Seq::<char>::empty()]);
        assert(split_on(x, sep).push(Seq::<char>::empty()) =~= split_on(x, sep) + split_on(y, sep));
    } else {
        let y0 = y.drop_last();
        lemma_split_on_concat(x, y0, sep);
        lemma_split_on_nonempty(y0, sep);
        assert((xs + y).drop_last() =~= xs + y0);
        assert((xs + y).last() == y.last());
        let a = split_on(x, sep);
        let b0 = split_on(y0, sep);
        if y.last() == sep {
            assert((a + b0).push(Seq::<char>::empty()) =~= a + b0.push(Seq::<char>::empty()));
        } else {
            assert((a + b0).update((a + b0).len() - 1, (a + b0).last().push(y.last())) =~= a
                + b0.update(b0.len() - 1, b0.last().push(y.last())));
        }
    }
}

/// Parts joined with a separator whose first character is `sep`, none of
/// them holding `sep`, split back into the first part and each later part
/// behind the rest of the separator.
pub proof fn lemma_split_on_join(parts: Seq<Seq<char>>, rest: Seq<char>, sep: char)
    requires
        parts.len() > 0,
        !rest.contains(sep),
        forall|i: int| 0 <= i < parts.len() ==> !(#[trigger] parts[i]).contains(sep),
    ensures
        split_on(join_with(parts, seq![sep] + rest), sep) == seq![parts[0]] + parts.drop_first().map_values(
            |q: Seq<char>| rest + q,
        ),
    decreases parts.len(),
{
    if parts.len() == 1 {
        lemma_split_on_append(Seq::empty(), parts[0], sep);
        assert(Seq::<char>::empty() + parts[0] =~= parts[0]);
        assert(split_on(Seq::<char>::empty(), sep) =~= seq![Seq::<char>::empty()]);
        assert(parts.drop_first().map_values(|q: Seq<char>| rest + q) =~= Seq::<Seq<char>>::empty());
        assert(seq![Seq::<char>::empty()].update(0, Seq::<char>::empty() + parts[0]) =~= seq![parts[0]]);
    } else {
        let p0 = parts.drop_last();
        assert forall|i: int| 0 <= i < p0.len() implies !(#[trigger] p0[i]).contains(sep) by {
            assert(p0[i] == parts[i]);
        }
        lemma_split_on_join(p0, rest, sep);
        let j0 = join_with(p0, seq![sep] + rest);
        let last = parts.last();
        assert(join_with(parts, seq![sep] + rest) =~= j0 + seq![sep] + (rest + last));
        lemma_split_on_concat(j0, rest + last, sep);
        assert(!(rest + last).contains(sep)) by {
            if (rest + last).contains(sep) {
                let i = choose|i: int| 0 <= i < (rest + last).len() && (rest + last)[i] == sep;
                if i < rest.len() {
                    assert(rest[i] == sep);
                } else {
                    assert(last[i - rest.len()] == sep);
                }
            }
        }
        lemma_split_on_append(Seq::empty(), rest + last, sep);
        assert(Seq::<char>::empty() + (rest + last) =~= rest + last);
        assert(split_on(Seq::<char>::empty(), sep) =~= seq![Seq::<char>::empty()]);
        assert(split_on(rest + last, sep) =~= seq![rest + last]);
        assert(parts.drop_first().map_values(|q: Seq<char>| rest + q) =~= p0.drop_first().map_values(
            |q: Seq<char>| rest + q,
        ).push(rest + last));
    }
}

/// Dropping empty pieces distributes over concatenation.
pub proof fn lemma_nonempty_only_concat(a: Seq<Seq<char>>, b: Seq<Seq<char>>)
    ensures
        nonempty_only(a + b) == nonempty_only(a) + nonempty_only(b),
    decreases b.len(),
{
    if b.len() == 0 {
        assert(a + b =~= a);
        assert(nonempty_only(a) + nonempty_only(b) =~= nonempty_only(a));
    } else {
        lemma_nonempty_only_concat(a, b.drop_last());
        assert((a + b).drop_last() =~= a + b.drop_last());
        assert((a + b).last() == b.last());
        if b.last().len() > 0 {
            assert((nonempty_only(a) + nonempty_only(b.drop_last())).push(b.last()) =~= nonempty_only(a)
                + nonempty_only(b.drop_last()).push(b.last()));
        }
    }
}

/// Pieces that are all non-empty are kept as they are.
pub proof fn lemma_nonempty_only_keeps(a: Seq<Seq<char>>)
    requires
        forall|i: int| 0 <= i < a.len() ==> (#[trigger] a[i]).len() > 0,
    ensures
        nonempty_only(a) == a,
    decreases a.len(),
{
    if a.len() > 0 {
        let d = a.drop_last();
        assert forall|i: int| 0 <= i < d.len() implies (#[trigger] d[i]).len() > 0 by {
            assert(d[i] == a[i]);
        }
        lemma_nonempty_only_keeps(d);
        assert(a.last() == a[a.len() - 1]);
        assert(d.push(a.last()) =~= a);
    }
}

pub fn split_chars(s: &[char], sep: char) -> (r: Vec<Vec<char>>)
    ensures
        views(r@) == split_on(s@, sep),
{
    let mut out: Vec<Vec<char>> = Vec::new();
    let mut cur: Vec<char> = Vec::new();
    let mut i: usize = 0;
    proof {
        assert(s@.take(0) =~= Seq::<char>::empty());
        assert(views(out@).push(cur@) =~= split_on(s@.take(0), sep));
    }
    while i < s.len()
        invariant
            i <= s@.len(),
            views(out@).push(cur@) == split_on(s@.take(i as int), sep),
        decreases s@.len() - i,
    {
        let ghost prev = s@.take(i as int);
        let ghost old_out = out@;
        let ghost old_cur = cur@;
        let c = s[i];
        if c == sep {
            out.push(cur);
            cur = Vec::new();
        } else {
            cur.push(c);
        }
        i = i + 1;
        proof {
            let t = s@.take(i as int);
            assert(t.drop_last() =~= prev);
            assert(t.last() == c);
            lemma_split_on_nonempty(prev, sep);
            if c == sep {
                assert(views(out@) =~= views(old_out).push(old_cur));
                assert(views(out@).push(cur@) =~= split_on(t, sep));
            } else {
                assert(views(out@).push(cur@) =~= views(old_out).push(old_cur).update(
                    old_out.len() as int,
                    old_cur.push(c),
                ));
                assert(views(out@).push(cur@) =~= split_on(t, sep));
            }
        }
    }
    let ghost before = out@;
    let ghost last = cur@;
    out.push(cur);
    proof {
        assert(s@.take(s@.len() as int) =~= s@);
        assert(views(out@) =~= views(before).push(last));
    }
    out
}

/// `s` with every trailing `c` removed (`str::trim_end_matches` with a
/// character).
pub open spec fn strip_trailing(s: Seq<char>, c: char) -> Seq<char>
    decreases s.len(),
{
    if s.len() > 0 && s.last() == c {
        strip_trailing(s.drop_last(), c)
    } else {
        s
    }
}

pub fn strip_trailing_len(s: &[char], c: char) -> (n: usize)
    ensures
        n <= s@.len(),
        s@.take(n as int) == strip_trailing(s@, c),
{
    let mut n = s.len();
    proof {
        assert(s@.take(n as int) =~= s@);
    }
    while n > 0 && s[n - 1] == c
        invariant
            n <= s@.len(),
            strip_trailing(s@, c) == strip_trailing(s@.take(n as int), c),
        decreases n,
    {
        proof {
            assert(s@.take(n as int).drop_last() =~= s@.take(n - 1));
        }
        n = n - 1;
    }
    n
}

/// The non-empty members of `v`, in order.
pub open spec fn nonempty_only(v: Seq<Seq<char>>) -> Seq<Seq<char>>
    decreases v.len(),
{
    if v.len() == 0 {
        Seq::empty()
    } else if v.last().len() > 0 {
        nonempty_only(v.drop_last()).push(v.last())
    } else {
        nonempty_only(v.drop_last())
    }
}

/// The index of the first occurrence of `p` in `s`, or -1 when there is none.
pub open spec fn first_index_of(s: Seq<char>, p: Seq<char>) -> int {
    if exists|i: int| is_first_occurrence(s, p, i) {
        choose|i: int| is_first_occurrence(s, p, i)
    } else {
        -1
    }
}

pub proof fn lemma_first_index(s: Seq<char>, p: Seq<char>, i: int)
    requires
        is_first_occurrence(s, p, i),
    ensures
        first_index_of(s, p) == i,
        contains_seq(s, p),
{
    let j = choose|j: int| is_first_occurrence(s, p, j);
    assert(is_first_occurrence(s, p, j));
    if j < i {
        assert(!occurs_at(s, p, j));
    }
    if i < j {
        assert(!occurs_at(s, p, i));
    }
}

pub proof fn lemma_first_index_none(s: Seq<char>, p: Seq<char>)
    requires
        !contains_seq(s, p),
    ensures
        first_index_of(s, p) == -1,
{
    if exists|i: int| is_first_occurrence(s, p, i) {
        let j = choose|j: int| is_first_occurrence(s, p, j);
        assert(occurs_at(s, p, j));
    }
}


// ---------------------------------------------------------------------------
// Joining
// ---------------------------------------------------------------------------

/// The members of `parts` with `sep` between each two (`slice::join`).
pub open spec fn join_with(parts: Seq<Seq<char>>, sep: Seq<char>) -> Seq<char>
    decreases parts.len(),
{
    if parts.len() == 0 {
        Seq::empty()
    } else if parts.len() == 1 {
        parts[0]
    } else {
        join_with(parts.drop_last(), sep) + sep + parts.last()
    }
}

/// The character sequences of a sequence of strings.
pub open spec fn string_views(v: Seq<String>) -> Seq<Seq<char>> {
    v.map_values(|x: String| x@)
}

/// Appends `join_with(parts, sep)` to `dst`.
pub fn push_joined(dst: &mut Vec<char>, parts: &Vec<String>, sep: &str)
    ensures
        final(dst)@ == old(dst)@ + join_with(string_views(parts@), sep@),
{
    let ghost pv = string_views(parts@);
    let mut i: usize = 0;
    proof {
        assert(pv.take(0) =~= Seq::<Seq<char>>::empty());
        assert(dst@ =~= old(dst)@ + join_with(pv.take(0), sep@));
    }
    while i < parts.len()
        invariant
            i <= parts@.len(),
            pv == string_views(parts@),
            dst@ == old(dst)@ + join_with(pv.take(i as int), sep@),
        decreases parts@.len() - i,
    {
        let ghost before = dst@;
        if i > 0 {
            push_str(dst, sep);
        }
        let cs = chars_of(parts[i].as_str());
        push_all(dst, cs.as_slice());
        i = i + 1;
        proof {
            assert(pv.take(i as int).drop_last() =~= pv.take(i - 1));
            assert(pv.take(i as int).last() == pv[i - 1]);
            if i == 1 {
                assert(pv.take(1) =~= seq![pv[0]]);
                assert(dst@ =~= old(dst)@ + join_with(pv.take(i as int), sep@));
            } else {
                assert(dst@ =~= old(dst)@ + join_with(pv.take(i as int), sep@));
            }
        }
    }
    proof {
        assert(pv.take(parts@.len() as int) =~= pv);
    }
}


// ---------------------------------------------------------------------------
// Equality and case mapping
// ---------------------------------------------------------------------------

/// Whether two character sequences are equal.
pub fn chars_equal(a: &[char], b: &[char]) -> (r: bool)
    ensures
        r == (a@ == b@),
{
    if a.len() != b.len() {
        return false;
    }
    let mut i: usize = 0;
    while i < a.len()
        invariant
            i <= a@.len() == b@.len(),
            forall|j: int| 0 <= j < i ==> a@[j] == b@[j],
        decreases a@.len() - i,
    {
        if a[i] != b[i] {
            return false;
        }
        i = i + 1;
    }
    assert(a@ =~= b@);
    true
}

/// Whether `a` holds exactly the characters of `lit`.
pub fn chars_are(a: &[char], lit: &str) -> (r: bool)
    ensures
        r == (a@ == lit@),
{
    let l = chars_of(lit);
    chars_equal(a, l.as_slice())
}

/// Every character of `s` is ASCII.
pub open spec fn is_ascii_seq(s: Seq<char>) -> bool {
    forall|i: int| 0 <= i < s.len() ==> (#[trigger] s[i] as u32) < 128
}

pub open spec fn ascii_lower_char(c: char) -> char {
    if 'A' <= c && c <= 'Z' {
        ((c as u32) + 32) as char
    } else {
        c
    }
}

pub open spec fn ascii_upper_char(c: char) -> char {
    if 'a' <= c && c <= 'z' {
        ((c as u32) - 32) as char
    } else {
        c
    }
}

/// `s` with each ASCII upper-case letter turned to lower case.
pub open spec fn ascii_lower(s: Seq<char>) -> Seq<char> {
    s.map_values(|c: char| ascii_lower_char(c))
}

/// `s` with each ASCII lower-case letter turned to upper case.
pub open spec fn ascii_upper(s: Seq<char>) -> Seq<char> {
    s.map_values(|c: char| ascii_upper_char(c))
}

/// What `str::to_lowercase` returns for a string with the characters `s`.
pub uninterp spec fn lowercase_of(s: Seq<char>) -> Seq<char>;

/// What `str::to_uppercase` returns for a string with the characters `s`.
pub uninterp spec fn uppercase_of(s: Seq<char>) -> Seq<char>;

/// Calls `str::to_lowercase`. The contract names the result `lowercase_of`
/// and, for ASCII text, states what the documentation gives: each letter
/// `A`-`Z` becomes its lower-case letter and every other character is kept.
#[verifier::external_body]
pub(crate) fn to_lowercase(s: &str) -> (r: String)
    ensures
        r@ == lowercase_of(s@),
        is_ascii_seq(s@) ==> r@ == ascii_lower(s@),
{
    s.to_lowercase()
}

/// Calls `str::to_uppercase`. The contract names the result `uppercase_of`
/// and, for ASCII text, states that each letter `a`-`z` becomes its
/// upper-case letter and every other character is kept.
#[verifier::external_body]
pub(crate) fn to_uppercase(s: &str) -> (r: String)
    ensures
        r@ == uppercase_of(s@),
        is_ascii_seq(s@) ==> r@ == ascii_upper(s@),
{
    s.to_uppercase()
}

/// The lower-case characters of `cs` (through `str::to_lowercase`).
pub fn lowercase_chars(cs: &[char]) -> (r: Vec<char>)
    ensures
        r@ == lowercase_of(cs@),
        is_ascii_seq(cs@) ==> r@ == ascii_lower(cs@),
{
    let s = string_from_chars(cs);
    let l = to_lowercase(s.as_str());
    chars_of(l.as_str())
}

/// The upper-case characters of `cs` (through `str::to_uppercase`).
pub fn uppercase_chars(cs: &[char]) -> (r: Vec<char>)
    ensures
        r@ == uppercase_of(cs@),
        is_ascii_seq(cs@) ==> r@ == ascii_upper(cs@),
{
    let s = string_from_chars(cs);
    let u = to_uppercase(s.as_str());
    chars_of(u.as_str())
}


/// A `Result` of strings by the views of its strings.
pub open spec fn result_view(r: Result<String, String>) -> Result<Seq<char>, Seq<char>> {
    match r {
        Ok(s) => Ok(s@),
        Err(e) => Err(e@),
    }
}

/// A `Result` with an error string by the view of its error.
pub open spec fn unit_result_view(r: Result<(), String>) -> Result<(), Seq<char>> {
    match r {
        Ok(()) => Ok(()),
        Err(e) => Err(e@),
    }
}

// ---------------------------------------------------------------------------
// UTF-8
// ---------------------------------------------------------------------------

/// The UTF-8 encoding of one character.
pub open spec fn utf8_char(c: char) -> Seq<u8> {
    let u = c as u32;
    if u < 0x80 {
        seq![u as u8]
    } else if u < 0x800 {
        seq![(0xC0 | (u >> 6)) as u8, (0x80 | (u & 0x3F)) as u8]
    } else if u < 0x10000 {
        seq![(0xE0 | (u >> 12)) as u8, (0x80 | ((u >> 6) & 0x3F)) as u8, (0x80 | (u & 0x3F)) as u8]
    } else {
        seq![
            (0xF0 | (u >> 18)) as u8,
            (0x80 | ((u >> 12) & 0x3F)) as u8,
            (0x80 | ((u >> 6) & 0x3F)) as u8,
            (0x80 | (u & 0x3F)) as u8,
        ]
    }
}

/// The UTF-8 encoding of a text.
pub open spec fn utf8_encode(s: Seq<char>) -> Seq<u8>
    decreases s.len(),
{
    if s.len() == 0 {
        Seq::empty()
    } else {
        utf8_encode(s.drop_last()) + utf8_char(s.last())
    }
}

/// Calls `str::as_bytes`: the UTF-8 encoding of the text.
#[verifier::external_body]
pub(crate) fn text_bytes(s: &str) -> (r: Vec<u8>)
    ensures
        r@ == utf8_encode(s@),
{
    s.as_bytes().to_vec()
}

} // verus!
