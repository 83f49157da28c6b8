use vstd::prelude::*;
use vstd::std_specs::iter::IteratorSpec;

verus! {

/// Length in bytes of the UTF-8 encoding of a text, as `str::len` reports it.
pub open spec fn byte_len(s: Seq<char>) -> usize {
    vstd::utf8::encode_utf8(s).len() as usize
}

/// Unicode `White_Space`: the set that `char::is_whitespace`, `str::trim`
/// and the `\s` class of a Unicode regular expression all use.
pub open spec fn is_white_space(c: char) -> bool {
    let u = c as u32;
    ||| 9 <= u <= 13
    ||| u == 32
    ||| u == 0x85
    ||| u == 0xA0
    ||| u == 0x1680
    ||| 0x2000 <= u <= 0x200A
    ||| u == 0x2028
    ||| u == 0x2029
    ||| u == 0x202F
    ||| u == 0x205F
    ||| u == 0x3000
}

pub fn char_is_white_space(c: char) -> (b: bool)
    ensures
        b == is_white_space(c),
{
    let u = c as u32;
    (9 <= u && u <= 13) || u == 32 || u == 0x85 || u == 0xA0 || u == 0x1680 || (0x2000 <= u && u
        <= 0x200A) || u == 0x2028 || u == 0x2029 || u == 0x202F || u == 0x205F || u == 0x3000
}

/// `n` occurs in `h` starting at position `i`.
pub open spec fn occurs_at(h: Seq<char>, n: Seq<char>, i: int) -> bool {
    0 <= i && i + n.len() <= h.len() && h.subrange(i, i + n.len()) == n
}

/// `n` occurs somewhere in `h` (what `str::contains` answers).
pub open spec fn contains(h: Seq<char>, n: Seq<char>) -> bool {
    exists|i: int| occurs_at(h, n, i)
}

/// Index of the first character at or after `i` that is not white space
/// (or the length of `s` when there is none).
pub open spec fn skip_white(s: Seq<char>, i: int) -> int
    decreases s.len() - i,
{
    if i < 0 || i >= s.len() {
        s.len() as int
    } else if is_white_space(s[i]) {
        skip_white(s, i + 1)
    } else {
        i
    }
}

/// End of `s.subrange(0, j)` once trailing white space is removed.
pub open spec fn end_without_white(s: Seq<char>, j: int) -> int
    decreases j,
{
    if j <= 0 || j > s.len() {
        0
    } else if is_white_space(s[j - 1]) {
        end_without_white(s, j - 1)
    } else {
        j
    }
}

/// `str::trim`: the text without leading and trailing white space.
pub open spec fn trimmed(s: Seq<char>) -> Seq<char> {
    let a = skip_white(s, 0);
    let b = end_without_white(s, s.len() as int);
    if a < b {
        s.subrange(a, b)
    } else {
        Seq::empty()
    }
}

proof fn lemma_skip_white_range(s: Seq<char>, i: int)
    requires
        0 <= i <= s.len(),
    ensures
        i <= skip_white(s, i) <= s.len(),
    decreases s.len() - i,
{
    if i < s.len() && is_white_space(s[i]) {
        lemma_skip_white_range(s, i + 1);
    }
}

proof fn lemma_end_without_white_range(s: Seq<char>, j: int)
    requires
        0 <= j <= s.len(),
    ensures
        0 <= end_without_white(s, j) <= j,
    decreases j,
{
    if j > 0 && is_white_space(s[j - 1]) {
        lemma_end_without_white_range(s, j - 1);
    }
}

proof fn lemma_skip_white_lands(s: Seq<char>, i: int)
    requires
        0 <= i <= s.len(),
    ensures
        skip_white(s, i) < s.len() ==> !is_white_space(s[skip_white(s, i)]),
    decreases s.len() - i,
{
    if i < s.len() && is_white_space(s[i]) {
        lemma_skip_white_lands(s, i + 1);
    }
}

proof fn lemma_end_without_white_lands(s: Seq<char>, j: int)
    requires
        0 <= j <= s.len(),
    ensures
        end_without_white(s, j) > 0 ==> !is_white_space(s[end_without_white(s, j) - 1]),
    decreases j,
{
    if j > 0 && is_white_space(s[j - 1]) {
        lemma_end_without_white_lands(s, j - 1);
    }
}

/// A trimmed text that is not empty is a piece of the text that begins and
/// ends with a character that is not white space.
pub proof fn lemma_trimmed_shape(s: Seq<char>)
    ensures
        trimmed(s).len() > 0 ==> !is_white_space(trimmed(s)[0]) && !is_white_space(trimmed(s).last())
            && exists|a: int, b: int| 0 <= a <= b <= s.len() && trimmed(s) == s.subrange(a, b),
{
    lemma_skip_white_range(s, 0);
    lemma_end_without_white_range(s, s.len() as int);
    lemma_skip_white_lands(s, 0);
    lemma_end_without_white_lands(s, s.len() as int);
    let a = skip_white(s, 0);
    let b = end_without_white(s, s.len() as int);
    if a < b {
        assert(trimmed(s)[0] == s[a]);
        assert(trimmed(s).last() == s[b - 1]);
        assert(trimmed(s) == s.subrange(a, b));
    }
}

/// Trimming keeps only characters of the text: what holds of each of them
/// holds of each character that is left.
pub proof fn lemma_trimmed_keeps(s: Seq<char>, p: spec_fn(char) -> bool)
    requires
        forall|k: int| 0 <= k < s.len() ==> p(#[trigger] s[k]),
    ensures
        trimmed(s).len() <= s.len(),
        forall|k: int| 0 <= k < trimmed(s).len() ==> p(#[trigger] trimmed(s)[k]),
{
    lemma_skip_white_range(s, 0);
    lemma_end_without_white_range(s, s.len() as int);
    let a = skip_white(s, 0);
    assert forall|k: int| 0 <= k < trimmed(s).len() implies p(#[trigger] trimmed(s)[k]) by {
        assert(trimmed(s)[k] == s[a + k]);
    }
}

/// The characters of a string slice, in order.
pub fn chars_of(s: &str) -> (v: Vec<char>)
    ensures
        v@ == s@,
{
    let mut v: Vec<char> = Vec::new();
    let mut it = s.chars();
    loop
        invariant
            it.remaining() == s@.subrange(v@.len() as int, s@.len() as int),
            v@ == s@.subrange(0, v@.len() as int),
            v@.len() <= s@.len(),
        decreases s@.len() - v@.len(),
    {
        match it.next() {
            Some(c) => {
                v.push(c);
            },
            None => {
                return v;
            },
        }
    }
}

/// Collects characters into a `String` (`FromIterator<char> for String`).
#[verifier::external_body]
pub(crate) fn string_from_chars(v: &[char]) -> (s: String)
    ensures
        s@ == v@,
{
    v.iter().collect()
}

/// A fresh `String` holding a copy of `s`.
pub fn owned(s: &str) -> (r: String)
    ensures
        r@ == s@,
{
    String::from_str(s)
}

/// `a` followed by `b`.
pub fn concat2(a: &str, b: &str) -> (r: String)
    ensures
        r@ == a@ + b@,
{
    let mut r = String::from_str(a);
    r.append(b);
    r
}

/// `a`, `b` and `c` one after another.
pub fn concat3(a: &str, b: &str, c: &str) -> (r: String)
    ensures
        r@ == a@ + b@ + c@,
{
    let mut r = String::from_str(a);
    r.append(b);
    r.append(c);
    r
}

/// Whether `n` occurs in `h` at position `i`.
pub fn chars_match_at(h: &[char], i: usize, n: &[char]) -> (b: bool)
    ensures
        b == occurs_at(h@, n@, i as int),
{
    if i > h.len() || n.len() > h.len() - i {
        return false;
    }
    let hl = h.len();
    let mut k: usize = 0;
    while k < n.len()
        invariant
            hl == h@.len(),
            i + n@.len() <= h@.len(),
            k <= n@.len(),
            forall|m: int| 0 <= m < k ==> h@[i + m] == n@[m],
        decreases n@.len() - k,
    {
        if h[i + k] != n[k] {
            assert(h@.subrange(i as int, i + n@.len())[k as int] != n@[k as int]);
            return false;
        }
        k = k + 1;
    }
    assert(h@.subrange(i as int, i + n@.len()) =~= n@);
    true
}

/// Whether `n` occurs anywhere in `h`.
pub fn chars_contain(h: &[char], n: &[char]) -> (b: bool)
    ensures
        b == contains(h@, n@),
{
    if n.len() > h.len() {
        assert forall|i: int| !occurs_at(h@, n@, i) by {}
        return false;
    }
    let last = h.len() - n.len();
    let mut i: usize = 0;
    loop
        invariant
            i <= last,
            last + n@.len() == h@.len(),
            forall|j: int| 0 <= j < i ==> !occurs_at(h@, n@, j),
        ensures
            forall|j: int| 0 <= j <= last ==> !occurs_at(h@, n@, j),
        decreases last - i,
    {
        if chars_match_at(h, i, n) {
            return true;
        }
        if i == last {
            break;
        }
        i = i + 1;
    }
    assert forall|j: int| !occurs_at(h@, n@, j) by {
        if occurs_at(h@, n@, j) {
            assert(j <= last);
        }
    }
    false
}

/// Whether two texts are the same.
pub fn str_eq(a: &str, b: &str) -> (r: bool)
    ensures
        r == (a@ == b@),
{
    let x = chars_of(a);
    let y = chars_of(b);
    if x.len() != y.len() {
        return false;
    }
    let r = chars_match_at(&x, 0, &y);
    proof {
        if r {
            assert(x@ =~= x@.subrange(0, y@.len() as int));
        }
        if x@ == y@ {
            assert(x@.subrange(0, y@.len() as int) =~= x@);
        }
    }
    r
}

/// Whether `s` begins with `p`.
pub fn chars_start_with(s: &[char], p: &[char]) -> (b: bool)
    ensures
        b == occurs_at(s@, p@, 0),
{
    chars_match_at(s, 0, p)
}

/// Position of the first character that is not white space, from `i` on.
pub fn skip_white_from(s: &[char], i: usize) -> (r: usize)
    requires
        i <= s@.len(),
    ensures
        r as int == skip_white(s@, i as int),
        i <= r <= s@.len(),
{
    let mut k = i;
    while k < s.len() && char_is_white_space(s[k])
        invariant
            i <= k <= s@.len(),
            skip_white(s@, i as int) == skip_white(s@, k as int),
        decreases s@.len() - k,
    {
        k = k + 1;
    }
    k
}

/// `str::trim` on a character sequence.
pub fn trim_chars(s: &[char]) -> (r: Vec<char>)
    ensures
        r@ == trimmed(s@),
{
    let a = skip_white_from(s, 0);
    let mut b = s.len();
    while b > 0 && char_is_white_space(s[b - 1])
        invariant
            b <= s@.len(),
            end_without_white(s@, s@.len() as int) == end_without_white(s@, b as int),
        decreases b,
    {
        b = b - 1;
    }
    let mut r: Vec<char> = Vec::new();
    if a < b {
        let mut k = a;
        while k < b
            invariant
                a <= k <= b <= s@.len(),
                r@ == s@.subrange(a as int, k as int),
            decreases b - k,
        {
            r.push(s[k]);
            k = k + 1;
        }
    }
    r
}

/// The characters `s[from..to]`.
pub fn slice_chars(s: &[char], from: usize, to: usize) -> (r: Vec<char>)
    requires
        from <= to <= s@.len(),
    ensures
        r@ == s@.subrange(from as int, to as int),
{
    let mut r: Vec<char> = Vec::new();
    let mut k = from;
    while k < to
        invariant
            from <= k <= to <= s@.len(),
            r@ == s@.subrange(from as int, k as int),
        decreases to - k,
    {
        r.push(s[k]);
        k = k + 1;
    }
    r
}

/// First position at or after `j` that holds `c` (the length when there is none).
pub open spec fn scan_char(t: Seq<char>, c: char, j: int) -> int
    decreases t.len() - j,
{
    if j < 0 || j >= t.len() {
        t.len() as int
    } else if t[j] == c {
        j
    } else {
        scan_char(t, c, j + 1)
    }
}

/// Facts about `scan_char`.
pub proof fn lemma_scan_char(t: Seq<char>, c: char, j: int)
    requires
        0 <= j <= t.len(),
    ensures
        j <= scan_char(t, c, j) <= t.len(),
        scan_char(t, c, j) < t.len() ==> t[scan_char(t, c, j)] == c,
        forall|k: int| j <= k < scan_char(t, c, j) ==> t[k] != c,
    decreases t.len() - j,
{
    if j < t.len() && t[j] != c {
        lemma_scan_char(t, c, j + 1);
    }
}

pub fn scan_char_from(t: &[char], c: char, j: usize) -> (r: usize)
    requires
        j <= t@.len(),
    ensures
        r as int == scan_char(t@, c, j as int),
        j <= r <= t@.len(),
{
    let mut k = j;
    while k < t.len() && t[k] != c
        invariant
            j <= k <= t@.len(),
            scan_char(t@, c, j as int) == scan_char(t@, c, k as int),
        decreases t@.len() - k,
    {
        k = k + 1;
    }
    k
}

/// Decimal digits of a number, most significant first, as `Display` writes it.
pub open spec fn decimal(n: nat) -> Seq<char>
    decreases n,
{
    if n < 10 {
        seq![digit_char(n)]
    } else {
        decimal(n / 10) + seq![digit_char(n % 10)]
    }
}

pub open spec fn digit_char(d: nat) -> char {
    if d == 0 { '0' }
    else if d == 1 { '1' }
    else if d == 2 { '2' }
    else if d == 3 { '3' }
    else if d == 4 { '4' }
    else if d == 5 { '5' }
    else if d == 6 { '6' }
    else if d == 7 { '7' }
    else if d == 8 { '8' }
    else { '9' }
}

fn digit(d: u64) -> (c: char)
    requires
        d < 10,
    ensures
        c == digit_char(d as nat),
{
    if d == 0 { '0' }
    else if d == 1 { '1' }
    else if d == 2 { '2' }
    else if d == 3 { '3' }
    else if d == 4 { '4' }
    else if d == 5 { '5' }
    else if d == 6 { '6' }
    else if d == 7 { '7' }
    else if d == 8 { '8' }
    else { '9' }
}

/// Decimal representation of `n` (what `n.to_string()` gives).
pub fn decimal_string(n: u64) -> (s: String)
    ensures
        s@ == decimal(n as nat),
{
    let mut digits: Vec<char> = Vec::new();
    let mut m = n;
    loop
        invariant_except_break
            digits@.len() == 0 ==> m == n,
            digits@.len() > 0 ==> m > 0,
            digits@.len() > 0 ==> decimal(n as nat) == (if m == 0 {
                Seq::<char>::empty()
            } else {
                decimal(m as nat)
            }) + digits@.reverse(),
        ensures
            decimal(n as nat) == digits@.reverse(),
        decreases m,
    {
        let d = m % 10;
        let c = digit(d);
        let ghost old_digits = digits@;
        let ghost old_m = m;
        digits.push(c);
        m = m / 10;
        proof {
            if old_m < 10 {
                assert(decimal(old_m as nat) == seq![c]);
            } else {
                assert(decimal(old_m as nat) == decimal(m as nat) + seq![c]);
            }
            assert(digits@.reverse() =~= seq![c] + old_digits.reverse());
            if old_digits.len() == 0 {
                assert(old_digits.reverse() =~= Seq::<char>::empty());
            }
        }
        if m == 0 {
            assert(decimal(n as nat) =~= digits@.reverse());
            break;
        }
    }
    let mut out: Vec<char> = Vec::new();
    let mut k = digits.len();
    while k > 0
        invariant
            k <= digits@.len(),
            out@ == digits@.reverse().subrange(0, (digits@.len() - k) as int),
        decreases k,
    {
        k = k - 1;
        out.push(digits[k]);
        assert(out@ =~= digits@.reverse().subrange(0, (digits@.len() - k) as int));
    }
    assert(out@ =~= digits@.reverse());
    string_from_chars(&out)
}

} // verus!
