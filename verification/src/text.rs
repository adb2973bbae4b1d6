//! Text helpers over sequences of characters.
//!
//! Every function states its result over the character sequence of a string,
//! so that callers never reason about byte offsets.

use vstd::prelude::*;

verus! {

/// `std::string::String::push` appends one character.
pub assume_specification[ std::string::String::push ](s: &mut std::string::String, c: char)
    ensures
        final(s)@ == old(s)@.push(c),
;

/// `std::string::String::push_str` appends the characters of a string slice.
pub assume_specification[ std::string::String::push_str ](s: &mut std::string::String, t: &str)
    ensures
        final(s)@ == old(s)@ + t@,
;

/// `==` on string slices compares their characters.
pub assume_specification[ <str as PartialEq>::eq ](s: &str, t: &str) -> (r: bool)
    ensures
        r == (s@ == t@),
;

/// The views of the elements of a sequence, in order.
pub open spec fn views<T: View>(s: Seq<T>) -> Seq<T::V> {
    Seq::new(s.len(), |i: int| s[i]@)
}

/// The view of what an option holds.
pub open spec fn opt_view<T: View>(o: Option<T>) -> Option<T::V> {
    match o {
        Some(v) => Some(v@),
        None => None,
    }
}

/// Whether a type's `clone` keeps the view.
pub open spec fn clone_keeps_view<T: View + Clone>() -> bool {
    forall|a: T, b: T| #[trigger] cloned(a, b) ==> b@ == a@
}

/// Clones a vector element by element.
pub fn clone_vec<T: View + Clone>(v: &Vec<T>) -> (r: Vec<T>)
    requires
        clone_keeps_view::<T>(),
    ensures
        views(r@) == views(v@),
{
    let r = v.clone();
    assert(views(r@) =~= views(v@)) by {
        assert forall|i: int| 0 <= i < v@.len() implies r@[i]@ == v@[i]@ by {
            assert(cloned(v@[i], r@[i]));
        }
    }
    r
}

/// Clones what an option holds.
pub fn clone_opt<T: View + Clone>(o: &Option<T>) -> (r: Option<T>)
    requires
        clone_keeps_view::<T>(),
    ensures
        opt_view(r) == opt_view(*o),
{
    match o {
        Some(v) => {
            let c = v.clone();
            assert(cloned(*v, c));
            Some(c)
        },
        None => None,
    }
}

/// Whether two string slices hold the same characters.
pub fn str_eq(s: &str, t: &str) -> (r: bool)
    ensures
        r == (s@ == t@),
{
    s.eq(t)
}

/// The characters of a string slice.
pub fn chars_of(s: &str) -> (r: Vec<char>)
    ensures
        r@ == s@,
{
    let mut v: Vec<char> = Vec::new();
    for c in it: s.chars()
        invariant
            it.seq() == s@,
            v@ == s@.take(it.index()),
    {
        v.push(c);
        assert(s@.take(it.index() + 1) =~= s@.take(it.index()).push(c));
    }
    assert(s@.take(s@.len() as int) =~= s@);
    v
}

/// The string that holds the characters of `v` from `from` up to `to`.
pub fn string_of(v: &Vec<char>, from: usize, to: usize) -> (r: String)
    requires
        from <= to <= v@.len(),
    ensures
        r@ == v@.subrange(from as int, to as int),
{
    let mut out = String::new();
    let mut i: usize = from;
    while i < to
        invariant
            from <= i <= to <= v@.len(),
            out@ == v@.subrange(from as int, i as int),
        decreases to - i,
    {
        out.push(v[i]);
        assert(v@.subrange(from as int, i + 1) =~= v@.subrange(from as int, i as int).push(v@[i as int]));
        i = i + 1;
    }
    out
}

/// The two texts one after the other.
pub fn concat2(a: &str, b: &str) -> (r: String)
    ensures
        r@ == a@ + b@,
{
    let mut out = a.to_owned();
    out.push_str(b);
    out
}

/// The three texts one after the other.
pub fn concat3(a: &str, b: &str, c: &str) -> (r: String)
    ensures
        r@ == a@ + b@ + c@,
{
    let mut out = a.to_owned();
    out.push_str(b);
    out.push_str(c);
    out
}

/// The four texts one after the other.
pub fn concat4(a: &str, b: &str, c: &str, d: &str) -> (r: String)
    ensures
        r@ == a@ + b@ + c@ + d@,
{
    let mut out = concat3(a, b, c);
    out.push_str(d);
    out
}

// ---------------------------------------------------------------------------
// white space
// ---------------------------------------------------------------------------

/// The characters with the Unicode `White_Space` property.
pub open spec fn is_white(c: char) -> bool {
    ||| 0x09 <= c as u32 <= 0x0d
    ||| c as u32 == 0x20
    ||| c as u32 == 0x85
    ||| c as u32 == 0xa0
    ||| c as u32 == 0x1680
    ||| 0x2000 <= c as u32 <= 0x200a
    ||| 0x2028 <= c as u32 <= 0x2029
    ||| c as u32 == 0x202f
    ||| c as u32 == 0x205f
    ||| c as u32 == 0x3000
}

/// Whether `c` has the Unicode `White_Space` property.
pub fn is_whitespace(c: char) -> (r: bool)
    ensures
        r == is_white(c),
{
    let n: u32 = c as u32;
    (0x09 <= n && n <= 0x0d) || n == 0x20 || n == 0x85 || n == 0xa0 || n == 0x1680
        || (0x2000 <= n && n <= 0x200a) || (0x2028 <= n && n <= 0x2029) || n == 0x202f
        || n == 0x205f || n == 0x3000
}

/// Whether a text holds nothing but white space.
pub open spec fn is_blank(s: Seq<char>) -> bool {
    forall|i: int| 0 <= i < s.len() ==> is_white(#[trigger] s[i])
}

/// Whether `s` holds nothing but white space.
pub fn blank(s: &str) -> (r: bool)
    ensures
        r == is_blank(s@),
{
    let v = chars_of(s);
    let mut i: usize = 0;
    while i < v.len()
        invariant
            i <= v@.len(),
            v@ == s@,
            forall|k: int| 0 <= k < i ==> is_white(#[trigger] v@[k]),
        decreases v@.len() - i,
    {
        if !is_whitespace(v[i]) {
            assert(!is_white(s@[i as int]));
            return false;
        }
        i = i + 1;
    }
    true
}

/// `s` without its leading white space.
pub open spec fn trim_start(s: Seq<char>) -> Seq<char>
    decreases s.len(),
{
    if s.len() > 0 && is_white(s[0]) {
        trim_start(s.drop_first())
    } else {
        s
    }
}

/// `s` without its trailing white space.
pub open spec fn trim_end(s: Seq<char>) -> Seq<char>
    decreases s.len(),
{
    if s.len() > 0 && is_white(s.last()) {
        trim_end(s.drop_last())
    } else {
        s
    }
}

/// `s` without leading and trailing white space.
pub open spec fn trim(s: Seq<char>) -> Seq<char> {
    trim_end(trim_start(s))
}

/// `text` without leading and trailing white space.
pub fn trimmed(text: &str) -> (r: String)
    ensures
        r@ == trim(text@),
{
    let v = chars_of(text);
    let mut from: usize = 0;
    assert(v@.skip(0) =~= v@);
    while from < v.len() && is_whitespace(v[from])
        invariant
            from <= v@.len(),
            v@ == text@,
            trim_start(v@) == trim_start(v@.skip(from as int)),
        decreases v@.len() - from,
    {
        assert(v@.skip(from as int).drop_first() =~= v@.skip(from + 1));
        from = from + 1;
    }
    assert(trim_start(v@) == v@.skip(from as int)) by {
        if from < v@.len() {
            assert(v@.skip(from as int)[0] == v@[from as int]);
        }
    }
    let mut to: usize = v.len();
    assert(v@.subrange(from as int, to as int) =~= v@.skip(from as int));
    while to > from && is_whitespace(v[to - 1])
        invariant
            from <= to <= v@.len(),
            trim_end(v@.subrange(from as int, to as int)) == trim_end(v@.skip(from as int)),
        decreases to,
    {
        assert(v@.subrange(from as int, to as int).drop_last() =~= v@.subrange(from as int, to - 1));
        assert(v@.subrange(from as int, to as int).last() == v@[to - 1]);
        to = to - 1;
    }
    assert(trim_end(v@.subrange(from as int, to as int)) == v@.subrange(from as int, to as int)) by {
        if to > from {
            assert(v@.subrange(from as int, to as int).last() == v@[to - 1]);
        }
    }
    string_of(&v, from, to)
}

// ---------------------------------------------------------------------------
// numbers
// ---------------------------------------------------------------------------

/// The decimal digit `d`.
pub open spec fn digit(d: nat) -> char {
    (48 + d) as char
}

/// `n` written in decimal, without leading zeros.
pub open spec fn decimal(n: nat) -> Seq<char>
    decreases n,
{
    if n < 10 {
        seq![digit(n)]
    } else {
        decimal(n / 10).push(digit(n % 10))
    }
}

/// `n` written in decimal.
pub fn decimal_text(n: u64) -> (r: String)
    ensures
        r@ == decimal(n as nat),
    decreases n,
{
    let d: u8 = (n % 10) as u8;
    let c: char = (48u8 + d) as char;
    if n < 10 {
        let mut out = String::new();
        out.push(c);
        assert(out@ =~= decimal(n as nat));
        out
    } else {
        let mut out = decimal_text(n / 10);
        out.push(c);
        out
    }
}

/// `i` written in decimal, with a minus sign where it is below zero.
pub open spec fn signed_decimal(i: int) -> Seq<char> {
    if i < 0 {
        "-"@ + decimal((-i) as nat)
    } else {
        decimal(i as nat)
    }
}

/// `i` written in decimal.
pub fn signed_text(i: i32) -> (r: String)
    ensures
        r@ == signed_decimal(i as int),
{
    if i < 0 {
        let n: i64 = -(i as i64);
        concat2("-", decimal_text(n as u64).as_str())
    } else {
        decimal_text(i as u64)
    }
}

/// Decimal numbers are not empty.
pub proof fn lemma_decimal_nonempty(n: nat)
    ensures
        decimal(n).len() > 0,
{
}

/// Different numbers are written differently.
pub proof fn lemma_decimal_injective(a: nat, b: nat)
    ensures
        decimal(a) == decimal(b) ==> a == b,
    decreases a,
{
    if decimal(a) == decimal(b) {
        if a >= 10 {
            lemma_decimal_nonempty(a / 10);
            assert(decimal(a).len() > 1);
            assert(b >= 10);
            assert(decimal(a).drop_last() =~= decimal(a / 10));
            assert(decimal(b).drop_last() =~= decimal(b / 10));
            lemma_decimal_injective(a / 10, b / 10);
        } else {
            if b >= 10 {
                lemma_decimal_nonempty(b / 10);
            }
            assert(b < 10);
        }
        assert(decimal(a).last() == digit(a % 10));
        assert(decimal(b).last() == digit(b % 10));
        assert(a % 10 == b % 10);
    }
}

/// How many bytes the text takes in UTF-8.
pub open spec fn byte_length(s: Seq<char>) -> usize {
    vstd::utf8::encode_utf8(s).len() as usize
}

// ---------------------------------------------------------------------------
// searching and replacing
// ---------------------------------------------------------------------------

/// Whether `p` stands in `s` at position `i`.
pub open spec fn occurs_at(s: Seq<char>, p: Seq<char>, i: int) -> bool {
    0 <= i && i + p.len() <= s.len() && s.subrange(i, i + p.len()) == p
}

/// Whether `p` stands anywhere in `s`.
pub open spec fn occurs_in(s: Seq<char>, p: Seq<char>) -> bool {
    exists|i: int| occurs_at(s, p, i)
}

/// Whether `p` stands in `v` at position `i`.
pub fn found_at(v: &Vec<char>, p: &Vec<char>, i: usize) -> (r: bool)
    requires
        i <= v@.len(),
    ensures
        r == occurs_at(v@, p@, i as int),
{
    if p.len() > v.len() - i {
        return false;
    }
    let mut k: usize = 0;
    while k < p.len()
        invariant
            k <= p@.len(),
            i + p@.len() <= v.len(),
            forall|j: int| 0 <= j < k ==> v@[i + j] == #[trigger] p@[j],
        decreases p@.len() - k,
    {
        if v[i + k] != p[k] {
            assert(v@.subrange(i as int, i + p@.len())[k as int] != p@[k as int]);
            return false;
        }
        k = k + 1;
    }
    assert(v@.subrange(i as int, i + p@.len()) =~= p@);
    true
}

/// Whether `s` begins with `p`.
pub fn starts_with(s: &str, p: &str) -> (r: bool)
    ensures
        r == p@.is_prefix_of(s@),
{
    let v = chars_of(s);
    let q = chars_of(p);
    let r = found_at(&v, &q, 0);
    assert(r == p@.is_prefix_of(s@));
    r
}

/// What follows the prefix `p` in `s`, where `s` begins with it.
pub fn strip_prefix(s: &str, p: &str) -> (r: Option<String>)
    ensures
        opt_view(r) == (if p@.is_prefix_of(s@) {
            Some(s@.skip(p@.len() as int))
        } else {
            None
        }),
{
    let v = chars_of(s);
    let q = chars_of(p);
    if found_at(&v, &q, 0) {
        let out = string_of(&v, q.len(), v.len());
        assert(out@ =~= s@.skip(p@.len() as int));
        Some(out)
    } else {
        None
    }
}

/// Whether `p` stands anywhere in `s`.
pub fn contains(s: &str, p: &str) -> (r: bool)
    ensures
        r == occurs_in(s@, p@),
{
    let v = chars_of(s);
    let q = chars_of(p);
    let mut i: usize = 0;
    while i < v.len()
        invariant
            i <= v@.len(),
            v@ == s@,
            q@ == p@,
            forall|k: int| 0 <= k < i ==> !occurs_at(s@, p@, k),
        decreases v@.len() - i,
    {
        if found_at(&v, &q, i) {
            return true;
        }
        i = i + 1;
    }
    let last = found_at(&v, &q, v.len());
    assert(!last ==> forall|k: int| !occurs_at(s@, p@, k));
    last
}

/// `s` with every occurrence of `p`, found from the left without overlap,
/// replaced by `r`. An empty `p` stands before every character and at the end.
pub open spec fn replace_all(s: Seq<char>, p: Seq<char>, r: Seq<char>) -> Seq<char>
    decreases s.len(),
{
    if s.len() == 0 {
        if p.len() == 0 {
            r
        } else {
            s
        }
    } else if p.len() == 0 {
        r + seq![s[0]] + replace_all(s.skip(1), p, r)
    } else if p.is_prefix_of(s) {
        r + replace_all(s.skip(p.len() as int), p, r)
    } else {
        seq![s[0]] + replace_all(s.skip(1), p, r)
    }
}

/// `s` with its first occurrence of `p` replaced by `r`.
pub open spec fn replace_first(s: Seq<char>, p: Seq<char>, r: Seq<char>) -> Seq<char>
    decreases s.len(),
{
    if p.is_prefix_of(s) {
        r + s.skip(p.len() as int)
    } else if s.len() == 0 {
        s
    } else {
        seq![s[0]] + replace_first(s.skip(1), p, r)
    }
}

proof fn lemma_occurs_is_prefix(s: Seq<char>, p: Seq<char>, i: int)
    requires
        0 <= i <= s.len(),
    ensures
        occurs_at(s, p, i) == p.is_prefix_of(s.skip(i)),
{
    if i + p.len() <= s.len() {
        assert(s.subrange(i, i + p.len()) =~= s.skip(i).subrange(0, p.len() as int));
    }
}

/// `s` with every occurrence of `p` replaced by `r`.
pub fn replaced_all(s: &str, p: &str, r: &str) -> (out: String)
    ensures
        out@ == replace_all(s@, p@, r@),
{
    let v = chars_of(s);
    let q = chars_of(p);
    let mut out = String::new();
    let mut i: usize = 0;
    assert(v@.skip(0) =~= v@);
    while i < v.len()
        invariant
            i <= v@.len(),
            v@ == s@,
            q@ == p@,
            out@ + replace_all(v@.skip(i as int), p@, r@) == replace_all(s@, p@, r@),
        decreases v@.len() - i,
    {
        let ghost rest = v@.skip(i as int);
        let ghost before = out@;
        assert(rest[0] == v@[i as int]);
        assert(rest.skip(1) =~= v@.skip(i + 1));
        if q.len() == 0 {
            out.push_str(r);
            out.push(v[i]);
            assert(before + (r@ + seq![rest[0]] + replace_all(rest.skip(1), p@, r@)) =~= out@
                + replace_all(rest.skip(1), p@, r@));
            i = i + 1;
        } else if found_at(&v, &q, i) {
            proof {
                lemma_occurs_is_prefix(v@, q@, i as int);
                assert(rest.skip(p@.len() as int) =~= v@.skip(i + p@.len()));
            }
            out.push_str(r);
            assert(before + (r@ + replace_all(rest.skip(p@.len() as int), p@, r@)) =~= out@
                + replace_all(rest.skip(p@.len() as int), p@, r@));
            i = i + q.len();
        } else {
            proof {
                lemma_occurs_is_prefix(v@, q@, i as int);
            }
            out.push(v[i]);
            assert(before + (seq![rest[0]] + replace_all(rest.skip(1), p@, r@)) =~= out@
                + replace_all(rest.skip(1), p@, r@));
            i = i + 1;
        }
    }
    assert(v@.skip(i as int).len() == 0);
    if q.len() == 0 {
        out.push_str(r);
    } else {
        assert(out@ + v@.skip(i as int) =~= out@);
    }
    out
}

/// `s` with its first occurrence of `p` replaced by `r`.
pub fn replaced_first(s: &str, p: &str, r: &str) -> (out: String)
    ensures
        out@ == replace_first(s@, p@, r@),
{
    let v = chars_of(s);
    let q = chars_of(p);
    let mut out = String::new();
    let mut i: usize = 0;
    assert(v@.skip(0) =~= v@);
    loop
        invariant
            i <= v.len(),
            v@ == s@,
            q@ == p@,
            out@ + replace_first(v@.skip(i as int), p@, r@) == replace_first(s@, p@, r@),
        decreases v@.len() - i,
    {
        let ghost rest = v@.skip(i as int);
        let ghost before = out@;
        proof {
            lemma_occurs_is_prefix(v@, q@, i as int);
        }
        if found_at(&v, &q, i) {
            out.push_str(r);
            let tail = string_of(&v, i + q.len(), v.len());
            out.push_str(tail.as_str());
            assert(out@ =~= before + (r@ + rest.skip(p@.len() as int)));
            return out;
        }
        if i == v.len() {
            assert(before + rest =~= before);
            return out;
        }
        assert(rest.skip(1) =~= v@.skip(i + 1));
        out.push(v[i]);
        assert(before + (seq![rest[0]] + replace_first(rest.skip(1), p@, r@)) =~= out@
            + replace_first(rest.skip(1), p@, r@));
        i = i + 1;
    }
}

// ---------------------------------------------------------------------------
// splitting and joining
// ---------------------------------------------------------------------------

/// The first position of `c` in `s`, or the length of `s` where it is absent.
pub open spec fn position(s: Seq<char>, c: char) -> int
    decreases s.len(),
{
    if s.len() == 0 || s[0] == c {
        0
    } else {
        1 + position(s.skip(1), c)
    }
}

proof fn lemma_position_from(s: Seq<char>, c: char, from: int, at: int)
    requires
        0 <= from <= at <= s.len(),
        forall|k: int| from <= k < at ==> s[k] != c,
        at < s.len() ==> s[at] == c,
    ensures
        position(s.skip(from), c) == at - from,
    decreases at - from,
{
    if from < at {
        assert(s.skip(from)[0] == s[from]);
        assert(s.skip(from).skip(1) =~= s.skip(from + 1));
        lemma_position_from(s, c, from + 1, at);
    } else if at < s.len() {
        assert(s.skip(from)[0] == s[at]);
    }
}

/// Where `c` first stands in `v` at or after `from`, or the length of `v`.
pub fn find_char(v: &Vec<char>, c: char, from: usize) -> (r: usize)
    requires
        from <= v@.len(),
    ensures
        from <= r <= v@.len(),
        r == from + position(v@.skip(from as int), c),
        r < v@.len() ==> v@[r as int] == c,
{
    let mut i: usize = from;
    while i < v.len() && v[i] != c
        invariant
            from <= i <= v@.len(),
            forall|k: int| from <= k < i ==> v@[k] != c,
        decreases v@.len() - i,
    {
        i = i + 1;
    }
    proof {
        lemma_position_from(v@, c, from as int, i as int);
    }
    i
}

/// The text before and the text after the first `c` of `s`.
pub open spec fn split_at_char(s: Seq<char>, c: char) -> Option<(Seq<char>, Seq<char>)> {
    let at = position(s, c);
    if at < s.len() {
        Some((s.take(at), s.skip(at + 1)))
    } else {
        None
    }
}

/// The text before and the text after the first `c` of `s`, where it occurs.
pub fn split_once(s: &str, c: char) -> (r: Option<(String, String)>)
    ensures
        match r {
            Some((a, b)) => split_at_char(s@, c) == Some((a@, b@)),
            None => split_at_char(s@, c) is None,
        },
{
    let v = chars_of(s);
    let at = find_char(&v, c, 0);
    assert(v@.skip(0) =~= v@);
    if at < v.len() {
        let a = string_of(&v, 0, at);
        let b = string_of(&v, at + 1, v.len());
        assert(a@ =~= s@.take(at as int));
        assert(b@ =~= s@.skip(at + 1));
        Some((a, b))
    } else {
        None
    }
}

/// A line without the carriage return before its line feed.
pub open spec fn strip_carriage(s: Seq<char>) -> Seq<char> {
    if s.len() > 0 && s.last() == '\r' {
        s.drop_last()
    } else {
        s
    }
}

/// The lines of `s`: each ends at a line feed, which with a carriage return
/// before it belongs to no line. The last line needs no line feed.
pub open spec fn lines(s: Seq<char>) -> Seq<Seq<char>>
    decreases s.len(),
{
    let at = position(s, '\n');
    if s.len() == 0 {
        seq![]
    } else if 0 <= at < s.len() {
        seq![strip_carriage(s.take(at))] + lines(s.skip(at + 1))
    } else {
        seq![s]
    }
}

/// The lines of `s`.
pub fn lines_of(s: &str) -> (r: Vec<String>)
    ensures
        views(r@) == lines(s@),
{
    let v = chars_of(s);
    let mut out: Vec<String> = Vec::new();
    let mut from: usize = 0;
    assert(v@.skip(0) =~= v@);
    assert(views(out@) + lines(v@.skip(0)) =~= lines(s@));
    while from < v.len()
        invariant
            from <= v@.len(),
            v@ == s@,
            views(out@) + lines(v@.skip(from as int)) == lines(s@),
        decreases v@.len() - from,
    {
        let ghost rest = v@.skip(from as int);
        let ghost before = views(out@);
        let at = find_char(&v, '\n', from);
        if at < v.len() {
            let mut to: usize = at;
            if to > from && v[to - 1] == '\r' {
                to = to - 1;
            }
            let line = string_of(&v, from, to);
            assert(line@ =~= strip_carriage(rest.take(at - from))) by {
                if at > from {
                    assert(rest.take(at - from).last() == v@[at - 1]);
                }
            }
            assert(rest.skip(at - from + 1) =~= v@.skip(at + 1));
            out.push(line);
            assert(views(out@) =~= before.push(line@));
            assert(before + (seq![line@] + lines(v@.skip(at + 1))) =~= views(out@)
                + lines(v@.skip(at + 1)));
            from = at + 1;
        } else {
            let line = string_of(&v, from, v.len());
            assert(line@ =~= rest);
            out.push(line);
            assert(views(out@) =~= before.push(line@));
            assert(before + seq![line@] =~= views(out@));
            from = v.len();
            assert(lines(v@.skip(from as int)) =~= seq![]);
        }
    }
    assert(views(out@) + lines(v@.skip(from as int)) =~= views(out@));
    out
}

/// The parts one after the other, with `sep` between neighbours.
pub open spec fn join(parts: Seq<Seq<char>>, sep: Seq<char>) -> Seq<char>
    decreases parts.len(),
{
    if parts.len() == 0 {
        seq![]
    } else if parts.len() == 1 {
        parts[0]
    } else {
        join(parts.drop_last(), sep) + sep + parts.last()
    }
}

/// The parts one after the other, with `sep` between neighbours.
pub fn joined(parts: &Vec<String>, sep: &str) -> (r: String)
    ensures
        r@ == join(views(parts@), sep@),
{
    let mut out = String::new();
    let mut i: usize = 0;
    assert(views(parts@).take(0) =~= seq![]);
    while i < parts.len()
        invariant
            i <= parts@.len(),
            out@ == join(views(parts@).take(i as int), sep@),
        decreases parts@.len() - i,
    {
        if i > 0 {
            out.push_str(sep);
        }
        out.push_str(parts[i].as_str());
        let ghost next = views(parts@).take(i + 1);
        assert(next.drop_last() =~= views(parts@).take(i as int));
        assert(next.last() == parts@[i as int]@);
        if i == 0 {
            assert(out@ =~= next[0]);
        }
        i = i + 1;
    }
    assert(views(parts@).take(i as int) =~= views(parts@));
    out
}

/// At most the first `n` characters of `s`.
pub open spec fn first_chars(s: Seq<char>, n: nat) -> Seq<char> {
    if s.len() <= n {
        s
    } else {
        s.take(n as int)
    }
}

/// At most the first `n` characters of `s`.
pub fn take_chars(s: &str, n: usize) -> (r: String)
    ensures
        r@ == first_chars(s@, n as nat),
{
    let v = chars_of(s);
    let to: usize = if v.len() <= n {
        v.len()
    } else {
        n
    };
    let r = string_of(&v, 0, to);
    assert(r@ =~= first_chars(s@, n as nat));
    r
}

// ---------------------------------------------------------------------------
// ordering
// ---------------------------------------------------------------------------

/// Where a character stands among all: `low` before all others, which stand in
/// the order of their code points.
pub open spec fn rank(low: Option<char>, c: char) -> int {
    if low == Some(c) {
        -1
    } else {
        c as int
    }
}

proof fn lemma_ranks_differ(low: Option<char>, c: char, d: char)
    requires
        c != d,
    ensures
        low == Some(c) ==> rank(low, c) < rank(low, d),
        rank(low, c) != rank(low, d),
{
}

/// Whether `a` comes before `b` or is `b`: character by character, a text that
/// ends first comes first.
pub open spec fn precedes(low: Option<char>, a: Seq<char>, b: Seq<char>) -> bool
    decreases a.len(),
{
    if a.len() == 0 {
        true
    } else if b.len() == 0 {
        false
    } else if a[0] == b[0] {
        precedes(low, a.skip(1), b.skip(1))
    } else {
        rank(low, a[0]) < rank(low, b[0])
    }
}

/// Whether the texts stand in order.
pub open spec fn sorted(low: Option<char>, s: Seq<Seq<char>>) -> bool {
    forall|i: int, j: int| 0 <= i < j < s.len() ==> precedes(low, #[trigger] s[i], #[trigger] s[j])
}

/// Any two texts stand in one order or the other.
pub proof fn lemma_precedes_total(low: Option<char>, a: Seq<char>, b: Seq<char>)
    ensures
        precedes(low, a, b) || precedes(low, b, a),
    decreases a.len(),
{
    if a.len() > 0 && b.len() > 0 {
        if a[0] == b[0] {
            lemma_precedes_total(low, a.skip(1), b.skip(1));
        } else {
            lemma_ranks_differ(low, a[0], b[0]);
        }
    }
}

/// What comes before what comes before comes before.
pub proof fn lemma_precedes_transitive(low: Option<char>, a: Seq<char>, b: Seq<char>, c: Seq<char>)
    requires
        precedes(low, a, b),
        precedes(low, b, c),
    ensures
        precedes(low, a, c),
    decreases a.len(),
{
    if a.len() > 0 && b.len() > 0 && c.len() > 0 && a[0] == b[0] && b[0] == c[0] {
        lemma_precedes_transitive(low, a.skip(1), b.skip(1), c.skip(1));
    }
}

/// Texts that come before each other are the same.
pub proof fn lemma_precedes_antisymmetric(low: Option<char>, a: Seq<char>, b: Seq<char>)
    requires
        precedes(low, a, b),
        precedes(low, b, a),
    ensures
        a == b,
    decreases a.len(),
{
    if a.len() == 0 || b.len() == 0 {
        assert(a =~= b);
    } else {
        lemma_precedes_antisymmetric(low, a.skip(1), b.skip(1));
        assert(a =~= seq![a[0]] + a.skip(1));
        assert(b =~= seq![b[0]] + b.skip(1));
    }
}

/// Whether `a` comes before `b` or is `b`.
pub fn comes_before(low: Option<char>, a: &str, b: &str) -> (r: bool)
    ensures
        r == precedes(low, a@, b@),
{
    let v = chars_of(a);
    let w = chars_of(b);
    let mut i: usize = 0;
    assert(v@.skip(0) =~= v@);
    assert(w@.skip(0) =~= w@);
    while i < v.len() && i < w.len()
        invariant
            i <= v@.len(),
            i <= w@.len(),
            v@ == a@,
            w@ == b@,
            precedes(low, v@.skip(i as int), w@.skip(i as int)) == precedes(low, a@, b@),
        decreases v@.len() - i,
    {
        assert(v@.skip(i as int)[0] == v@[i as int]);
        assert(w@.skip(i as int)[0] == w@[i as int]);
        assert(v@.skip(i as int).skip(1) =~= v@.skip(i + 1));
        assert(w@.skip(i as int).skip(1) =~= w@.skip(i + 1));
        if v[i] != w[i] {
            proof {
                lemma_ranks_differ(low, v@[i as int], w@[i as int]);
                lemma_ranks_differ(low, w@[i as int], v@[i as int]);
            }
            let first: Option<bool> = match low {
                Some(c) => if c == v[i] {
                    Some(true)
                } else if c == w[i] {
                    Some(false)
                } else {
                    None
                },
                None => None,
            };
            return match first {
                Some(decided) => decided,
                None => v[i] < w[i],
            };
        }
        i = i + 1;
    }
    i == v.len()
}

/// The same texts, in order.
pub fn sort(low: Option<char>, texts: Vec<String>) -> (r: Vec<String>)
    ensures
        sorted(low, views(r@)),
        views(r@).to_multiset() == views(texts@).to_multiset(),
{
    broadcast use vstd::seq_lib::group_to_multiset_ensures;

    let mut out: Vec<String> = Vec::new();
    let ghost all = views(texts@);
    assert(views(out@) =~= all.take(0));
    for k in 0..texts.len()
        invariant
            all == views(texts@),
            sorted(low, views(out@)),
            out@.len() == k,
            views(out@).to_multiset() == all.take(k as int).to_multiset(),
    {
        let next = texts[k].clone();
        assert(next@ == all[k as int]);
        let mut at: usize = out.len();
        while at > 0 && !comes_before(low, out[at - 1].as_str(), next.as_str())
            invariant
                at <= out@.len(),
                sorted(low, views(out@)),
                next@ == all[k as int],
                forall|j: int| at <= j < out@.len() ==> precedes(low, next@, #[trigger] views(out@)[j]),
            decreases at,
        {
            at = at - 1;
            proof {
                lemma_precedes_total(low, next@, views(out@)[at as int]);
            }
        }
        let ghost before = views(out@);
        let ghost item = next@;
        proof {
            assert forall|j: int| 0 <= j < at implies precedes(low, #[trigger] before[j], next@) by {
                if j < at - 1 {
                    assert(precedes(low, before[j], before[at - 1]));
                    lemma_precedes_transitive(low, before[j], before[at - 1], next@);
                }
            }
        }
        out.insert(at, next);
        let ghost after = views(out@);
        assert(after =~= before.insert(at as int, next@));
        assert forall|i: int, j: int| 0 <= i < j < after.len() implies precedes(
            low,
            #[trigger] after[i],
            #[trigger] after[j],
        ) by {
            let a = if i < at {
                i
            } else {
                i - 1
            };
            let b = if j < at {
                j
            } else {
                j - 1
            };
            if i == at {
                assert(after[j] == before[b]);
            } else if j == at {
                assert(after[i] == before[a]);
            } else {
                assert(after[i] == before[a] && after[j] == before[b]);
            }
        }
        proof {
            vstd::seq_lib::to_multiset_insert(before, at as int, item);
            assert(all.take(k + 1) =~= all.take(k as int).push(all[k as int]));
            vstd::seq_lib::to_multiset_build(all.take(k as int), all[k as int]);
        }
    }
    assert(all.take(all.len() as int) =~= all);
    out
}

// ---------------------------------------------------------------------------
// laws
// ---------------------------------------------------------------------------

proof fn lemma_trim_start(s: Seq<char>) -> (from: int)
    ensures
        0 <= from <= s.len(),
        trim_start(s) == s.skip(from),
        forall|i: int| 0 <= i < from ==> is_white(#[trigger] s[i]),
        from < s.len() ==> !is_white(s[from]),
    decreases s.len(),
{
    if s.len() > 0 && is_white(s[0]) {
        let rest = s.drop_first();
        let from = lemma_trim_start(rest);
        assert(rest.skip(from) =~= s.skip(from + 1));
        assert forall|i: int| 0 <= i < from + 1 implies is_white(#[trigger] s[i]) by {
            if i > 0 {
                assert(rest[i - 1] == s[i]);
            }
        }
        from + 1
    } else {
        assert(s.skip(0) =~= s);
        0
    }
}

proof fn lemma_trim_end(s: Seq<char>) -> (to: int)
    ensures
        0 <= to <= s.len(),
        trim_end(s) == s.take(to),
        forall|i: int| to <= i < s.len() ==> is_white(#[trigger] s[i]),
        to > 0 ==> !is_white(s[to - 1]),
    decreases s.len(),
{
    if s.len() > 0 && is_white(s.last()) {
        let rest = s.drop_last();
        let to = lemma_trim_end(rest);
        assert(rest.take(to) =~= s.take(to));
        assert forall|i: int| to <= i < s.len() implies is_white(#[trigger] s[i]) by {
            if i < rest.len() {
                assert(rest[i] == s[i]);
            }
        }
        to
    } else {
        assert(s.take(s.len() as int) =~= s);
        s.len() as int
    }
}

/// Trimming cuts off white space at both ends and nothing else: what is left is
/// a piece of the text that begins and ends with other characters, and all that
/// is cut off is white space.
pub proof fn law_trimming_cuts_white_space_only(s: Seq<char>)
    ensures
        exists|from: int, to: int|
            #![trigger s.subrange(from, to)]
            {
                &&& 0 <= from <= to <= s.len()
                &&& trim(s) == s.subrange(from, to)
                &&& forall|i: int| 0 <= i < from ==> is_white(#[trigger] s[i])
                &&& forall|i: int| to <= i < s.len() ==> is_white(#[trigger] s[i])
            },
        trim(s).len() > 0 ==> !is_white(trim(s)[0]) && !is_white(trim(s).last()),
        trim(s).len() == 0 <==> is_blank(s),
{
    let from = lemma_trim_start(s);
    let rest = s.skip(from);
    let n = lemma_trim_end(rest);
    let to = from + n;
    assert(rest.take(n) =~= s.subrange(from, to));
    assert forall|i: int| to <= i < s.len() implies is_white(#[trigger] s[i]) by {
        assert(rest[i - from] == s[i]);
    }
    if n > 0 {
        assert(rest[0] == s[from]);
        assert(trim(s).last() == rest[n - 1]);
        assert(!is_white(s[from + n - 1]));
    } else {
        assert(is_blank(s)) by {
            assert forall|i: int| 0 <= i < s.len() implies is_white(#[trigger] s[i]) by {
                if i >= from {
                    assert(rest[i - from] == s[i]);
                }
            }
        }
    }
}

/// A text that neither begins nor ends with white space stays as it is when it
/// is trimmed, whatever white space is put around it.
pub proof fn law_trimming_undoes_padding(before: Seq<char>, s: Seq<char>, after: Seq<char>)
    requires
        is_blank(before),
        is_blank(after),
        s.len() > 0,
        !is_white(s[0]),
        !is_white(s.last()),
    ensures
        trim(before + s + after) == s,
{
    let all = before + s + after;
    let from = lemma_trim_start(all);
    if from < before.len() {
        assert(is_white(before[from]));
        assert(all[from] == before[from]);
    } else if from > before.len() {
        assert(all[before.len() as int] == s[0]);
    }
    assert(from == before.len());
    let rest = all.skip(from);
    assert(rest =~= s + after);
    let to = lemma_trim_end(rest);
    if to > s.len() {
        assert(rest[to - 1] == after[to - 1 - s.len()]);
    } else if to < s.len() {
        assert(rest[s.len() - 1] == s.last());
    }
    assert(rest.take(to) =~= s);
}

/// Joining puts the separator between neighbours and nowhere else: nothing is
/// left out, and nothing else is added.
pub proof fn law_joining_keeps_every_part(parts: Seq<Seq<char>>, part: Seq<char>, sep: Seq<char>)
    ensures
        join(seq![], sep) == Seq::<char>::empty(),
        join(seq![part], sep) == part,
        parts.len() > 0 ==> join(parts.push(part), sep) == join(parts, sep) + sep + part,
        join(parts, seq![]) == parts.flatten(),
    decreases parts.len(),
{
    if parts.len() > 0 {
        assert(parts.push(part).drop_last() =~= parts);
        let front = parts.drop_last();
        law_joining_keeps_every_part(front, part, sep);
        parts.lemma_flatten_and_flatten_alt_are_equivalent();
        front.lemma_flatten_and_flatten_alt_are_equivalent();
        if parts.len() == 1 {
            assert(front =~= seq![]);
            assert(join(parts, seq![]) =~= front.flatten_alt() + parts.last());
        } else {
            assert(join(parts, seq![]) =~= join(front, seq![]) + parts.last());
        }
    }
}

/// The beginning of a text is cut off at the limit, and only where it is longer.
pub proof fn law_first_characters_are_a_prefix(s: Seq<char>, n: nat)
    ensures
        first_chars(s, n).is_prefix_of(s),
        first_chars(s, n).len() == (if s.len() <= n {
            s.len()
        } else {
            n
        }),
{
}

proof fn lemma_position(s: Seq<char>, c: char, at: int)
    requires
        0 <= at <= s.len(),
        forall|i: int| 0 <= i < at ==> s[i] != c,
        at < s.len() ==> s[at] == c,
    ensures
        position(s, c) == at,
    decreases at,
{
    if at > 0 {
        assert(s.skip(1).len() == s.len() - 1);
        lemma_position(s.skip(1), c, at - 1);
    }
}

/// A text is read line by line: each line is what stands before a line feed,
/// without the carriage return right before it, and what stands behind the last
/// line feed is a line where it is not empty.
pub proof fn law_lines_end_at_line_feeds(line: Seq<char>, rest: Seq<char>)
    requires
        !line.contains('\n'),
    ensures
        lines(seq![]) == Seq::<Seq<char>>::empty(),
        line.len() > 0 ==> lines(line) == seq![line],
        line.len() == 0 || line.last() != '\r' ==> lines(line + seq!['\n'] + rest) == seq![line]
            + lines(rest),
        lines(line + seq!['\r', '\n'] + rest) == seq![line] + lines(rest),
{
    assert forall|i: int| 0 <= i < line.len() implies line[i] != '\n' by {
        assert(line.contains(line[i]));
    }
    lemma_position(line, '\n', line.len() as int);
    let a = line + seq!['\n'] + rest;
    lemma_position(a, '\n', line.len() as int);
    assert(a.take(line.len() as int) =~= line);
    assert(a.skip(line.len() as int + 1) =~= rest);
    let b = line + seq!['\r', '\n'] + rest;
    lemma_position(b, '\n', line.len() as int + 1);
    assert(b.take(line.len() as int + 1) =~= line.push('\r'));
    assert(line.push('\r').drop_last() =~= line);
    assert(b.skip(line.len() as int + 2) =~= rest);
}

/// Replacing goes from the left: what stands before the first occurrence stays,
/// the occurrence is replaced, and so on behind it. A text without an
/// occurrence stays as it is.
pub proof fn law_every_occurrence_is_replaced(
    before: Seq<char>,
    p: Seq<char>,
    r: Seq<char>,
    after: Seq<char>,
)
    requires
        p.len() > 0,
        forall|i: int| 0 <= i < before.len() ==> !occurs_at(before + p + after, p, i),
    ensures
        replace_all(before + p + after, p, r) == before + r + replace_all(after, p, r),
    decreases before.len(),
{
    let s = before + p + after;
    if before.len() == 0 {
        assert(s.subrange(0, p.len() as int) =~= p);
        assert(p.is_prefix_of(s));
        assert(s.skip(p.len() as int) =~= after);
        assert(before + r + replace_all(after, p, r) =~= r + replace_all(after, p, r));
    } else {
        lemma_occurs_is_prefix(s, p, 0);
        assert(s.skip(0) =~= s);
        assert(!p.is_prefix_of(s));
        let tail = before.skip(1);
        assert(s.skip(1) =~= tail + p + after);
        assert forall|i: int| 0 <= i < tail.len() implies !occurs_at(tail + p + after, p, i) by {
            if occurs_at(tail + p + after, p, i) {
                assert(s.subrange(i + 1, i + 1 + p.len()) =~= (tail + p + after).subrange(
                    i,
                    i + p.len(),
                ));
                assert(occurs_at(s, p, i + 1));
            }
        }
        law_every_occurrence_is_replaced(tail, p, r, after);
        assert(seq![s[0]] + (tail + r + replace_all(after, p, r)) =~= before + r + replace_all(
            after,
            p,
            r,
        ));
    }
}

/// Where a text does not occur, there is nothing to replace.
pub proof fn law_absent_text_is_not_replaced(s: Seq<char>, p: Seq<char>, r: Seq<char>)
    requires
        !occurs_in(s, p),
    ensures
        replace_all(s, p, r) == s,
        replace_first(s, p, r) == s,
    decreases s.len(),
{
    assert(s.skip(0) =~= s);
    lemma_occurs_is_prefix(s, p, 0);
    assert(!occurs_at(s, p, 0));
    if p.len() == 0 {
        assert(s.subrange(0, 0) =~= p);
        assert(occurs_at(s, p, 0));
    }
    if s.len() > 0 {
        let tail = s.skip(1);
        if occurs_in(tail, p) {
            let i = choose|i: int| occurs_at(tail, p, i);
            assert(s.subrange(i + 1, i + 1 + p.len()) =~= tail.subrange(i, i + p.len()));
            assert(occurs_at(s, p, i + 1));
        }
        law_absent_text_is_not_replaced(tail, p, r);
        assert(seq![s[0]] + tail =~= s);
    }
}

/// Texts are ordered character by character, by code point: where two texts part,
/// the lower character decides, and a text comes before what it is the beginning
/// of.
pub proof fn law_texts_are_ordered_by_their_characters(
    common: Seq<char>,
    c: char,
    d: char,
    x: Seq<char>,
    y: Seq<char>,
)
    requires
        c != d,
    ensures
        precedes(None, common, common + x),
        precedes(None, common + seq![c] + x, common + seq![d] + y) <==> (c as u32) < (d as u32),
    decreases common.len(),
{
    let a = common + seq![c] + x;
    let b = common + seq![d] + y;
    if common.len() > 0 {
        let rest = common.skip(1);
        law_texts_are_ordered_by_their_characters(rest, c, d, x, y);
        assert(a.skip(1) =~= rest + seq![c] + x);
        assert(b.skip(1) =~= rest + seq![d] + y);
        assert((common + x).skip(1) =~= rest + x);
        assert(a[0] == b[0]);
    } else {
        assert(a[0] == c && b[0] == d);
    }
}

/// A number is written with the digits of its decimal form.
pub proof fn law_numbers_are_written_in_decimal(n: nat, d: nat)
    requires
        d < 10,
    ensures
        decimal(d) == seq![(48 + d) as char],
        n > 0 ==> decimal(n * 10 + d) == decimal(n).push((48 + d) as char),
        n > 0 ==> signed_decimal(-(n as int)) == seq!['-'] + decimal(n),
        signed_decimal(n as int) == decimal(n),
{
    reveal_strlit("-");
    assert("-"@ =~= seq!['-']);
    if n > 0 {
        assert((n * 10 + d) / 10 == n);
        assert((n * 10 + d) % 10 == d);
    }
}

/// A text is split at the first occurrence of a character, which itself is left
/// out; one without the character is not split.
pub proof fn law_text_is_split_at_the_first_occurrence(
    before: Seq<char>,
    c: char,
    after: Seq<char>,
)
    requires
        !before.contains(c),
    ensures
        split_at_char(before + seq![c] + after, c) == Some((before, after)),
        split_at_char(before, c) is None,
{
    assert forall|i: int| 0 <= i < before.len() implies before[i] != c by {
        assert(before.contains(before[i]));
    }
    let all = before + seq![c] + after;
    lemma_position(all, c, before.len() as int);
    lemma_position(before, c, before.len() as int);
    assert(all.take(before.len() as int) =~= before);
    assert(all.skip(before.len() as int + 1) =~= after);
}

} // verus!
