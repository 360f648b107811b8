//! Character-level text utilities: whitespace, trimming, substring search,
//! ASCII case folding and decimal rendering, each stated over `Seq<char>`.
use vstd::prelude::*;

verus! {

/// The Unicode `White_Space` property, which `char::is_whitespace` tests.
pub open spec fn is_white_space(c: char) -> bool {
    let u = c as u32;
    ||| 0x09 <= u <= 0x0D
    ||| u == 0x20
    ||| u == 0x85
    ||| u == 0xA0
    ||| u == 0x1680
    ||| 0x2000 <= u <= 0x200A
    ||| u == 0x2028
    ||| u == 0x2029
    ||| u == 0x202F
    ||| u == 0x205F
    ||| u == 0x3000
}

/// The characters of a string slice, in order (`str::chars` collected).
#[verifier::external_body]
pub(crate) fn chars_of(s: &str) -> (r: Vec<char>)
    ensures
        r@ == s@,
{
    s.chars().collect()
}

/// A `String` holding exactly the given characters (`FromIterator<char>`).
#[verifier::external_body]
pub(crate) fn string_from_chars(v: &[char]) -> (r: String)
    ensures
        r@ == v@,
{
    v.iter().collect()
}

/// What `str::to_lowercase` returns for a string: the Unicode lowercase
/// mapping, which takes the Unicode character tables to state.
pub uninterp spec fn lowercase(s: Seq<char>) -> Seq<char>;

/// `str::to_lowercase`. The contract names its result and, for ASCII text,
/// states it: each of A–Z becomes its a–z counterpart and every other ASCII
/// character stays. The Unicode lowercase mapping of other characters (with its
/// context-dependent cases) is not written out.
#[verifier::external_body]
pub(crate) fn to_lowercase(s: &str) -> (r: String)
    ensures
        r@ == lowercase(s@),
        is_ascii_text(s@) ==> r@ == ascii_lowercase(s@),
{
    s.to_lowercase()
}

/// `s` with leading white space removed.
pub open spec fn trim_start(s: Seq<char>) -> Seq<char>
    decreases s.len(),
{
    if s.len() > 0 && is_white_space(s[0]) {
        trim_start(s.drop_first())
    } else {
        s
    }
}

/// `s` with trailing white space removed.
pub open spec fn trim_end(s: Seq<char>) -> Seq<char>
    decreases s.len(),
{
    if s.len() > 0 && is_white_space(s.last()) {
        trim_end(s.drop_last())
    } else {
        s
    }
}

/// `s` with leading and trailing white space removed (what `str::trim` gives).
pub open spec fn trim(s: Seq<char>) -> Seq<char> {
    trim_end(trim_start(s))
}

/// The number of white-space separated words in `s` (what
/// `str::split_whitespace().count()` gives): the positions where a word begins.
pub open spec fn word_count(s: Seq<char>) -> nat
    decreases s.len(),
{
    if s.len() == 0 {
        0
    } else {
        word_count(s.drop_last()) + if !is_white_space(s.last()) && (s.len() == 1
            || is_white_space(s[s.len() - 2])) {
            1nat
        } else {
            0nat
        }
    }
}

/// `needle` occurs in `hay` starting at position `i`.
pub open spec fn occurs_at(hay: Seq<char>, needle: Seq<char>, i: int) -> bool {
    0 <= i && i + needle.len() <= hay.len() && hay.subrange(i, i + needle.len()) == needle
}

/// `needle` occurs somewhere in `hay` (what `str::contains` tests).
pub open spec fn contains(hay: Seq<char>, needle: Seq<char>) -> bool {
    exists|i: int| occurs_at(hay, needle, i)
}

/// The number of disjoint occurrences of a non-empty `needle` in `hay` from
/// position `i` on, taken leftmost first (what `str::matches(..).count()` gives).
pub open spec fn count_from(hay: Seq<char>, needle: Seq<char>, i: int) -> nat
    decreases hay.len() - i,
{
    if needle.len() == 0 || i < 0 || i + needle.len() > hay.len() {
        0
    } else if occurs_at(hay, needle, i) {
        1 + count_from(hay, needle, i + needle.len())
    } else {
        count_from(hay, needle, i + 1)
    }
}

/// The number of disjoint occurrences of `needle` in `hay`.
pub open spec fn match_count(hay: Seq<char>, needle: Seq<char>) -> nat {
    count_from(hay, needle, 0)
}

/// `prefix` begins `s` (what `str::starts_with` tests).
pub open spec fn starts_with(s: Seq<char>, prefix: Seq<char>) -> bool {
    prefix.len() <= s.len() && s.subrange(0, prefix.len() as int) == prefix
}

/// ASCII upper-case letters mapped to lower case, every other character kept.
pub open spec fn ascii_lower(c: char) -> char {
    if 'A' <= c && c <= 'Z' {
        ((c as u32) + 32) as char
    } else {
        c
    }
}

/// Every character of `s` is ASCII.
pub open spec fn is_ascii_text(s: Seq<char>) -> bool {
    forall|k: int| 0 <= k < s.len() ==> (#[trigger] s[k] as u32) < 128
}

/// `s` with each of A–Z replaced by its a–z counterpart.
pub open spec fn ascii_lowercase(s: Seq<char>) -> Seq<char> {
    s.map_values(|c: char| ascii_lower(c))
}

/// ASCII case-insensitive equality (what `str::eq_ignore_ascii_case` tests).
pub open spec fn eq_ignore_ascii_case(a: Seq<char>, b: Seq<char>) -> bool {
    a.len() == b.len() && forall|i: int| 0 <= i < a.len() ==> ascii_lower(a[i]) == ascii_lower(b[i])
}

/// `s` with every occurrence of `c` removed (what `str::replace(c, "")` gives).
pub open spec fn without_char(s: Seq<char>, c: char) -> Seq<char>
    decreases s.len(),
{
    if s.len() == 0 {
        s
    } else if s.last() == c {
        without_char(s.drop_last(), c)
    } else {
        without_char(s.drop_last(), c).push(s.last())
    }
}

/// Removing a character twice removes no more than removing it once.
pub proof fn lemma_without_char_idempotent(s: Seq<char>, c: char)
    ensures
        without_char(without_char(s, c), c) == without_char(s, c),
    decreases s.len(),
{
    if s.len() > 0 {
        lemma_without_char_idempotent(s.drop_last(), c);
        if s.last() != c {
            let w = without_char(s.drop_last(), c).push(s.last());
            assert(w.drop_last() =~= without_char(s.drop_last(), c));
        }
    }
}

/// The decimal digit for `d` (0 to 9).
pub open spec fn digit_char(d: nat) -> char {
    if d == 0 {
        '0'
    } else if d == 1 {
        '1'
    } else if d == 2 {
        '2'
    } else if d == 3 {
        '3'
    } else if d == 4 {
        '4'
    } else if d == 5 {
        '5'
    } else if d == 6 {
        '6'
    } else if d == 7 {
        '7'
    } else if d == 8 {
        '8'
    } else {
        '9'
    }
}

/// The decimal rendering of `n`, without leading zeros (what `Display` prints for an integer).
pub open spec fn decimal(n: nat) -> Seq<char>
    decreases n,
{
    if n < 10 {
        seq![digit_char(n)]
    } else {
        decimal(n / 10).push(digit_char(n % 10))
    }
}

/// Tests whether `c` has the Unicode `White_Space` property (as `char::is_whitespace` does).
fn is_ws(c: char) -> (r: bool)
    ensures
        r == is_white_space(c),
{
    let u = c as u32;
    (0x09 <= u && u <= 0x0D) || u == 0x20 || u == 0x85 || u == 0xA0 || u == 0x1680 || (0x2000 <= u
        && u <= 0x200A) || u == 0x2028 || u == 0x2029 || u == 0x202F || u == 0x205F || u == 0x3000
}

/// The characters of `s` with leading and trailing white space removed.
pub fn trim_chars(s: &Vec<char>) -> (r: Vec<char>)
    ensures
        r@ == trim(s@),
{
    let n = s.len();
    let mut i: usize = 0;
    assert(s@.subrange(0, n as int) =~= s@);
    while i < n && is_ws(s[i])
        invariant
            i <= n == s@.len(),
            trim_start(s@) == trim_start(s@.subrange(i as int, n as int)),
        decreases n - i,
    {
        assert(s@.subrange(i as int, n as int).drop_first() =~= s@.subrange(i + 1, n as int));
        i = i + 1;
    }
    let mut j: usize = n;
    while j > i && is_ws(s[j - 1])
        invariant
            i <= j <= n == s@.len(),
            trim(s@) == trim_end(s@.subrange(i as int, j as int)),
        decreases j,
    {
        assert(s@.subrange(i as int, j as int).drop_last() =~= s@.subrange(i as int, j - 1));
        j = j - 1;
    }
    let mut r: Vec<char> = Vec::new();
    let mut k: usize = i;
    while k < j
        invariant
            i <= k <= j <= n == s@.len(),
            r@ == s@.subrange(i as int, k as int),
        decreases j - k,
    {
        r.push(s[k]);
        assert(r@ =~= s@.subrange(i as int, k + 1));
        k = k + 1;
    }
    r
}

/// The number of white-space separated words in `s`.
pub fn count_words(s: &Vec<char>) -> (r: usize)
    ensures
        r == word_count(s@),
{
    let n = s.len();
    let mut count: usize = 0;
    let mut i: usize = 0;
    while i < n
        invariant
            i <= n == s@.len(),
            count == word_count(s@.take(i as int)),
            count <= i,
        decreases n - i,
    {
        assert(s@.take(i + 1).drop_last() =~= s@.take(i as int));
        let starts = !is_ws(s[i]) && (i == 0 || is_ws(s[i - 1]));
        if starts {
            count = count + 1;
        }
        i = i + 1;
    }
    assert(s@.take(n as int) =~= s@);
    count
}

/// Tests whether `needle` occurs in `hay` at position `i`.
pub fn occurs_at_exec(hay: &Vec<char>, needle: &Vec<char>, i: usize) -> (r: bool)
    ensures
        r == occurs_at(hay@, needle@, i as int),
{
    let n = hay.len();
    if i > n || needle.len() > n - i {
        return false;
    }
    let m = needle.len();
    let mut k: usize = 0;
    while k < m
        invariant
            k <= m == needle@.len(),
            n == hay@.len(),
            i + m <= n,
            forall|t: int| 0 <= t < k ==> hay@[i + t] == needle@[t],
        decreases m - k,
    {
        if hay[i + k] != needle[k] {
            assert(hay@.subrange(i as int, i + m)[k as int] != needle@[k as int]);
            return false;
        }
        k = k + 1;
    }
    assert(hay@.subrange(i as int, i + m) =~= needle@);
    true
}

/// Tests whether `needle` occurs somewhere in `hay`.
pub fn contains_exec(hay: &Vec<char>, needle: &Vec<char>) -> (r: bool)
    ensures
        r == contains(hay@, needle@),
{
    if needle.len() > hay.len() {
        return false;
    }
    if needle.len() == 0 {
        assert(hay@.subrange(0, 0) =~= needle@);
        assert(occurs_at(hay@, needle@, 0));
        return true;
    }
    let end = hay.len() - needle.len() + 1;
    let mut i: usize = 0;
    while i < end
        invariant
            end + needle@.len() == hay@.len() + 1,
            i <= end,
            forall|t: int| 0 <= t < i ==> !occurs_at(hay@, needle@, t),
        decreases end - i,
    {
        if occurs_at_exec(hay, needle, i) {
            return true;
        }
        i = i + 1;
    }
    assert(forall|t: int| !occurs_at(hay@, needle@, t));
    false
}

/// The number of disjoint occurrences of a non-empty `needle` in `hay`, leftmost first.
pub fn count_matches(hay: &Vec<char>, needle: &Vec<char>) -> (r: usize)
    requires
        needle@.len() > 0,
    ensures
        r == match_count(hay@, needle@),
{
    let n = hay.len();
    let m = needle.len();
    let mut count: usize = 0;
    let mut i: usize = 0;
    while i <= n && m <= n - i
        invariant
            n == hay@.len(),
            m == needle@.len() > 0,
            i <= n + 1,
            count + count_from(hay@, needle@, i as int) == count_from(hay@, needle@, 0),
            count <= i,
        decreases n + 1 - i,
    {
        if occurs_at_exec(hay, needle, i) {
            count = count + 1;
            i = i + m;
        } else {
            i = i + 1;
        }
    }
    count
}

/// Tests whether `prefix` begins `s`.
pub fn starts_with_exec(s: &Vec<char>, prefix: &Vec<char>) -> (r: bool)
    ensures
        r == starts_with(s@, prefix@),
{
    let r = occurs_at_exec(s, prefix, 0);
    r
}

/// Maps an ASCII upper-case letter to lower case.
fn ascii_lower_exec(c: char) -> (r: char)
    ensures
        r == ascii_lower(c),
{
    if 'A' <= c && c <= 'Z' {
        let u: u32 = (c as u32) + 32;
        assert(0x61 <= u <= 0x7A);
        char_of_ascii_lowercase(u)
    } else {
        c
    }
}

/// The lower-case ASCII letter with code `u`.
fn char_of_ascii_lowercase(u: u32) -> (r: char)
    requires
        0x61 <= u <= 0x7A,
    ensures
        r == u as char,
{
    let b: u8 = u as u8;
    let r = b as char;
    r
}

/// Tests ASCII case-insensitive equality.
pub fn eq_ignore_ascii_case_exec(a: &Vec<char>, b: &Vec<char>) -> (r: bool)
    ensures
        r == eq_ignore_ascii_case(a@, b@),
{
    if a.len() != b.len() {
        return false;
    }
    let n = a.len();
    let mut i: usize = 0;
    while i < n
        invariant
            n == a@.len() == b@.len(),
            i <= n,
            forall|t: int| 0 <= t < i ==> ascii_lower(a@[t]) == ascii_lower(b@[t]),
        decreases n - i,
    {
        if ascii_lower_exec(a[i]) != ascii_lower_exec(b[i]) {
            return false;
        }
        i = i + 1;
    }
    true
}

/// `s` with every occurrence of `c` removed.
pub fn remove_char(s: &Vec<char>, c: char) -> (r: Vec<char>)
    ensures
        r@ == without_char(s@, c),
{
    let n = s.len();
    let mut r: Vec<char> = Vec::new();
    let mut i: usize = 0;
    while i < n
        invariant
            i <= n == s@.len(),
            r@ == without_char(s@.take(i as int), c),
        decreases n - i,
    {
        assert(s@.take(i + 1).drop_last() =~= s@.take(i as int));
        if s[i] != c {
            r.push(s[i]);
        }
        i = i + 1;
    }
    assert(s@.take(n as int) =~= s@);
    r
}

/// The decimal digit for `d`.
fn digit_exec(d: u128) -> (r: char)
    requires
        d < 10,
    ensures
        r == digit_char(d as nat),
{
    if d == 0 {
        '0'
    } else if d == 1 {
        '1'
    } else if d == 2 {
        '2'
    } else if d == 3 {
        '3'
    } else if d == 4 {
        '4'
    } else if d == 5 {
        '5'
    } else if d == 6 {
        '6'
    } else if d == 7 {
        '7'
    } else if d == 8 {
        '8'
    } else {
        '9'
    }
}

/// Appends the decimal rendering of `n` to `out`.
pub fn push_decimal(out: &mut Vec<char>, n: u128)
    ensures
        final(out)@ == old(out)@ + decimal(n as nat),
    decreases n,
{
    if n >= 10 {
        push_decimal(out, n / 10);
    }
    out.push(digit_exec(n % 10));
    assert(out@ =~= old(out)@ + decimal(n as nat));
}

/// The decimal rendering of `n` as a `String`.
pub fn decimal_string(n: u128) -> (r: String)
    ensures
        r@ == decimal(n as nat),
{
    let mut v: Vec<char> = Vec::new();
    push_decimal(&mut v, n);
    assert(v@ =~= decimal(n as nat));
    string_from_chars(v.as_slice())
}

/// `s[a..e]` is one of the pieces that `str::split(c)` yields: it begins the
/// text or follows a `c`, ends the text or precedes a `c`, and holds no `c`.
pub open spec fn is_piece(s: Seq<char>, c: char, a: int, e: int) -> bool {
    &&& 0 <= a <= e <= s.len()
    &&& a == 0 || s[a - 1] == c
    &&& e == s.len() || s[e] == c
    &&& forall|k: int| a <= k < e ==> s[k] != c
}

/// Some piece of `s`, split at `c`, occurs in `hay`.
pub open spec fn some_piece_in(s: Seq<char>, c: char, hay: Seq<char>) -> bool {
    exists|a: int, e: int| #[trigger] is_piece(s, c, a, e) && contains(hay, s.subrange(a, e))
}

/// The characters `v[a..e]`.
pub fn sub_chars(v: &Vec<char>, a: usize, e: usize) -> (r: Vec<char>)
    requires
        a <= e <= v@.len(),
    ensures
        r@ == v@.subrange(a as int, e as int),
{
    let mut r: Vec<char> = Vec::new();
    let mut k: usize = a;
    while k < e
        invariant
            a <= k <= e <= v@.len(),
            r@ == v@.subrange(a as int, k as int),
        decreases e - k,
    {
        r.push(v[k]);
        assert(r@ =~= v@.subrange(a as int, k + 1));
        k = k + 1;
    }
    r
}

/// Tests whether some piece of `s`, split at `c`, occurs in `hay`.
pub fn some_piece_in_exec(s: &Vec<char>, c: char, hay: &Vec<char>) -> (r: bool)
    ensures
        r == some_piece_in(s@, c, hay@),
{
    let n = s.len();
    let mut start: usize = 0;
    let mut i: usize = 0;
    while i < n
        invariant
            n == s@.len(),
            start <= i <= n,
            start == 0 || s@[start - 1] == c,
            forall|k: int| start <= k < i ==> s@[k] != c,
            forall|a: int, e: int|
                #![trigger is_piece(s@, c, a, e)]
                is_piece(s@, c, a, e) && e < i ==> !contains(hay@, s@.subrange(a, e)),
        decreases n - i,
    {
        if s[i] == c {
            let piece = sub_chars(s, start, i);
            assert(is_piece(s@, c, start as int, i as int));
            if contains_exec(hay, &piece) {
                return true;
            }
            assert forall|a: int, e: int|
                #![trigger is_piece(s@, c, a, e)]
                is_piece(s@, c, a, e) && e < i + 1 implies !contains(hay@, s@.subrange(a, e)) by {
                if e == i {
                    if a < start {
                        assert(s@[start - 1] == c);
                    } else if a > start {
                        assert(s@[a - 1] == c);
                    }
                }
            }
            start = i + 1;
        }
        i = i + 1;
    }
    let piece = sub_chars(s, start, n);
    assert(is_piece(s@, c, start as int, n as int));
    let found = contains_exec(hay, &piece);
    if !found {
        assert forall|a: int, e: int|
            #![trigger is_piece(s@, c, a, e)]
            is_piece(s@, c, a, e) implies !contains(hay@, s@.subrange(a, e)) by {
            if e == n {
                if a < start {
                    assert(s@[start - 1] == c);
                } else if a > start {
                    assert(s@[a - 1] == c);
                }
            }
        }
    }
    found
}

/// A non-empty needle occurs in a text exactly when it is counted there at least once.
pub proof fn lemma_contains_iff_counted(hay: Seq<char>, needle: Seq<char>)
    requires
        needle.len() > 0,
    ensures
        contains(hay, needle) <==> match_count(hay, needle) >= 1,
{
    if contains(hay, needle) {
        let j = choose|j: int| occurs_at(hay, needle, j);
        lemma_counted_from(hay, needle, 0, j);
    }
    if match_count(hay, needle) >= 1 {
        lemma_count_witness(hay, needle, 0);
    }
}

/// An occurrence at or after `i` is counted from `i` on.
proof fn lemma_counted_from(hay: Seq<char>, needle: Seq<char>, i: int, j: int)
    requires
        needle.len() > 0,
        0 <= i <= j,
        occurs_at(hay, needle, j),
    ensures
        count_from(hay, needle, i) >= 1,
    decreases hay.len() - i,
{
    if !occurs_at(hay, needle, i) {
        lemma_counted_from(hay, needle, i + 1, j);
    }
}

/// Something counted from `i` on occurs somewhere.
proof fn lemma_count_witness(hay: Seq<char>, needle: Seq<char>, i: int)
    requires
        needle.len() > 0,
        count_from(hay, needle, i) >= 1,
    ensures
        contains(hay, needle),
    decreases hay.len() - i,
{
    if i >= 0 && i + needle.len() <= hay.len() && !occurs_at(hay, needle, i) {
        lemma_count_witness(hay, needle, i + 1);
    }
}

/// Nothing non-empty occurs in the empty text.
pub proof fn lemma_empty_text_holds_nothing(needle: Seq<char>)
    requires
        needle.len() > 0,
    ensures
        !contains(Seq::<char>::empty(), needle),
{
}

/// Removing leading white space leaves nothing or a non-white first character.
proof fn lemma_trim_start_first(s: Seq<char>)
    ensures
        trim_start(s).len() == 0 || !is_white_space(trim_start(s)[0]),
    decreases s.len(),
{
    if s.len() > 0 && is_white_space(s[0]) {
        lemma_trim_start_first(s.drop_first());
    }
}

/// Removing trailing white space leaves a prefix, which is empty or ends in a
/// non-white character.
proof fn lemma_trim_end_prefix(s: Seq<char>)
    ensures
        trim_end(s).len() <= s.len(),
        trim_end(s) == s.subrange(0, trim_end(s).len() as int),
        trim_end(s).len() == 0 || !is_white_space(trim_end(s).last()),
    decreases s.len(),
{
    if s.len() > 0 && is_white_space(s.last()) {
        lemma_trim_end_prefix(s.drop_last());
        assert(s.drop_last().subrange(0, trim_end(s).len() as int) =~= s.subrange(
            0,
            trim_end(s).len() as int,
        ));
    } else {
        assert(s.subrange(0, s.len() as int) =~= s);
    }
}

/// Trimming a trimmed text changes nothing: a line's payload is its own payload.
pub proof fn lemma_trim_idempotent(s: Seq<char>)
    ensures
        trim(trim(s)) == trim(s),
{
    let a = trim_start(s);
    let u = trim_end(a);
    lemma_trim_start_first(s);
    lemma_trim_end_prefix(a);
    if u.len() > 0 {
        assert(u[0] == a[0]);
    }
    assert(trim_start(u) == u);
    lemma_trim_end_prefix(u);
    if u.len() > 0 {
        assert(trim_end(u) == u);
    } else {
        assert(trim_end(u) == u);
    }
}

} // verus!
