//! Text helpers: whitespace, path segments, ordering and decimal rendering.

use vstd::prelude::*;

verus! {

/// Unicode `White_Space` (the property `char::is_whitespace` and `str::trim` use).
pub open spec fn is_white_space(c: char) -> bool {
    let u = c as u32;
    (0x9 <= u && u <= 0xd) || u == 0x20 || u == 0x85 || u == 0xa0 || u == 0x1680 || (0x2000 <= u
        && u <= 0x200a) || u == 0x2028 || u == 0x2029 || u == 0x202f || u == 0x205f || u == 0x3000
}

/// Whether `c` is Unicode `White_Space`.
pub fn char_is_white_space(c: char) -> (b: bool)
    ensures
        b == is_white_space(c),
{
    let u = c as u32;
    (0x9 <= u && u <= 0xd) || u == 0x20 || u == 0x85 || u == 0xa0 || u == 0x1680 || (0x2000 <= u
        && u <= 0x200a) || u == 0x2028 || u == 0x2029 || u == 0x202f || u == 0x205f || u == 0x3000
}

/// The text holds nothing but whitespace (what `trim()` leaves empty).
pub open spec fn is_blank_spec(s: Seq<char>) -> bool {
    forall|i: int| 0 <= i < s.len() ==> is_white_space(#[trigger] s[i])
}

/// Whether `s` trims to the empty string.
pub fn is_blank(s: &str) -> (b: bool)
    ensures
        b == is_blank_spec(s@),
{
    let n = s.unicode_len();
    let mut i: usize = 0;
    while i < n
        invariant
            n == s@.len(),
            i <= n,
            forall|j: int| 0 <= j < i ==> is_white_space(#[trigger] s@[j]),
        decreases n - i,
    {
        if !char_is_white_space(s.get_char(i)) {
            return false;
        }
        i = i + 1;
    }
    true
}

/// Index of the first non-whitespace character (the length when there is none).
pub open spec fn trim_start_index(s: Seq<char>) -> int
    decreases s.len(),
{
    if s.len() == 0 {
        0
    } else if is_white_space(s[0]) {
        1 + trim_start_index(s.drop_first())
    } else {
        0
    }
}

/// One past the last non-whitespace character (zero when there is none).
pub open spec fn trim_end_index(s: Seq<char>) -> int
    decreases s.len(),
{
    if s.len() == 0 {
        0
    } else if is_white_space(s.last()) {
        trim_end_index(s.drop_last())
    } else {
        s.len() as int
    }
}

/// `s` with leading and trailing whitespace removed.
pub open spec fn trim_spec(s: Seq<char>) -> Seq<char> {
    if is_blank_spec(s) {
        Seq::empty()
    } else {
        s.subrange(trim_start_index(s), trim_end_index(s))
    }
}

proof fn lemma_trim_start(s: Seq<char>, k: int)
    requires
        0 <= k <= s.len(),
        forall|j: int| 0 <= j < k ==> is_white_space(#[trigger] s[j]),
        k == s.len() || !is_white_space(s[k]),
    ensures
        trim_start_index(s) == k,
    decreases s.len(),
{
    if s.len() > 0 && k > 0 {
        assert(is_white_space(s[0]));
        let t = s.drop_first();
        assert forall|j: int| 0 <= j < k - 1 implies is_white_space(#[trigger] t[j]) by {
            assert(t[j] == s[j + 1]);
        }
        if k < s.len() {
            assert(t[k - 1] == s[k]);
        }
        lemma_trim_start(t, k - 1);
    }
}

proof fn lemma_trim_end(s: Seq<char>, k: int)
    requires
        0 <= k <= s.len(),
        forall|j: int| k <= j < s.len() ==> is_white_space(#[trigger] s[j]),
        k == 0 || !is_white_space(s[k - 1]),
    ensures
        trim_end_index(s) == k,
    decreases s.len(),
{
    if s.len() > 0 && k < s.len() {
        assert(is_white_space(s[s.len() - 1]));
        let t = s.drop_last();
        assert forall|j: int| k <= j < t.len() implies is_white_space(#[trigger] t[j]) by {
            assert(t[j] == s[j]);
        }
        if k > 0 {
            assert(t[k - 1] == s[k - 1]);
        }
        lemma_trim_end(t, k);
    }
}

/// `s` without leading and trailing whitespace (as `str::trim`).
pub fn trim(s: &str) -> (r: String)
    ensures
        r@ == trim_spec(s@),
{
    let n = s.unicode_len();
    let mut start: usize = 0;
    while start < n && char_is_white_space(s.get_char(start))
        invariant
            n == s@.len(),
            start <= n,
            forall|j: int| 0 <= j < start ==> is_white_space(#[trigger] s@[j]),
        decreases n - start,
    {
        start = start + 1;
    }
    if start == n {
        assert(is_blank_spec(s@));
        return String::new();
    }
    let mut end: usize = n;
    while end > start && char_is_white_space(s.get_char(end - 1))
        invariant
            n == s@.len(),
            start < n,
            !is_white_space(s@[start as int]),
            start <= end <= n,
            forall|j: int| end <= j < n ==> is_white_space(#[trigger] s@[j]),
        decreases end,
    {
        end = end - 1;
    }
    proof {
        lemma_trim_start(s@, start as int);
        lemma_trim_end(s@, end as int);
        assert(!is_white_space(s@[start as int]));
    }
    let sub = s.substring_char(start, end);
    String::from_str(sub)
}

/// A path separator as `split(['/', '\\'])` sees it.
pub open spec fn is_separator(c: char) -> bool {
    c == '/' || c == '\\'
}

/// Some `/`- or `\`-separated segment of `s` is exactly `..`.
pub open spec fn has_parent_segment(s: Seq<char>) -> bool {
    exists|i: int| #[trigger] parent_segment_at(s, i)
}

/// A `..` segment starts at index `i` of `s`.
pub open spec fn parent_segment_at(s: Seq<char>, i: int) -> bool {
    &&& 0 <= i
    &&& i + 2 <= s.len()
    &&& s[i] == '.'
    &&& s[i + 1] == '.'
    &&& (i == 0 || is_separator(s[i - 1]))
    &&& (i + 2 == s.len() || is_separator(s[i + 2]))
}

/// Whether some segment of `s` is `..`.
pub fn contains_parent_segment(s: &str) -> (b: bool)
    ensures
        b == has_parent_segment(s@),
{
    let n = s.unicode_len();
    let mut i: usize = 0;
    while n >= 2 && i <= n - 2
        invariant
            n == s@.len(),
            i <= n,
            forall|j: int| 0 <= j < i ==> !#[trigger] parent_segment_at(s@, j),
        decreases n - i,
    {
        let at_start = i == 0 || {
            let p = s.get_char(i - 1);
            p == '/' || p == '\\'
        };
        let at_end = i + 2 == n || {
            let q = s.get_char(i + 2);
            q == '/' || q == '\\'
        };
        if at_start && at_end && s.get_char(i) == '.' && s.get_char(i + 1) == '.' {
            assert(parent_segment_at(s@, i as int));
            return true;
        }
        i = i + 1;
    }
    assert forall|j: int| !#[trigger] parent_segment_at(s@, j) by {
        if 0 <= j < i {
        }
    }
    false
}

/// Some character of `s` is a path separator.
pub open spec fn has_separator(s: Seq<char>) -> bool {
    exists|i: int| 0 <= i < s.len() && is_separator(#[trigger] s[i])
}

/// Whether `s` holds `/` or `\`.
pub fn contains_separator(s: &str) -> (b: bool)
    ensures
        b == has_separator(s@),
{
    let n = s.unicode_len();
    let mut i: usize = 0;
    while i < n
        invariant
            n == s@.len(),
            i <= n,
            forall|j: int| 0 <= j < i ==> !is_separator(#[trigger] s@[j]),
        decreases n - i,
    {
        let c = s.get_char(i);
        if c == '/' || c == '\\' {
            return true;
        }
        i = i + 1;
    }
    false
}

/// `root` joined with `rel` as `Path::join` does on Unix: an absolute `rel` replaces `root`,
/// and a `/` is put between them unless `root` is empty or already ends with one.
pub open spec fn join_path_spec(root: Seq<char>, rel: Seq<char>) -> Seq<char> {
    if rel.len() > 0 && rel[0] == '/' {
        rel
    } else if root.len() == 0 || root.last() == '/' {
        root + rel
    } else {
        root + seq!['/'] + rel
    }
}

/// `root` joined with `rel` (see `join_path_spec`).
pub fn join_path(root: &str, rel: &str) -> (r: String)
    ensures
        r@ == join_path_spec(root@, rel@),
{
    let rn = rel.unicode_len();
    if rn > 0 && rel.get_char(0) == '/' {
        return String::from_str(rel);
    }
    let n = root.unicode_len();
    if n == 0 || root.get_char(n - 1) == '/' {
        String::from_str(root).concat(rel)
    } else {
        let sep = "/";
        proof {
            reveal_strlit("/");
        }
        let r = String::from_str(root).concat(sep).concat(rel);
        assert(r@ == root@ + seq!['/'] + rel@);
        r
    }
}

/// Lexicographic order on characters by code point (the order `String::cmp` gives, since UTF-8
/// preserves code point order).
pub open spec fn text_less(a: Seq<char>, b: Seq<char>) -> bool
    decreases a.len(),
{
    if a.len() == 0 {
        b.len() > 0
    } else if b.len() == 0 {
        false
    } else if a[0] != b[0] {
        (a[0] as u32) < (b[0] as u32)
    } else {
        text_less(a.drop_first(), b.drop_first())
    }
}

/// `a` and `b` agree on their first `i` characters and then `a` has the smaller one.
pub open spec fn first_difference_smaller(a: Seq<char>, b: Seq<char>, i: int) -> bool {
    &&& 0 <= i < a.len()
    &&& i < b.len()
    &&& a.subrange(0, i) == b.subrange(0, i)
    &&& (a[i] as u32) < (b[i] as u32)
}

/// `text_less` is the lexicographic order by code point: `a` comes first when, at the first
/// position where they differ, its character is smaller, or when it is a proper prefix of `b`.
pub proof fn law_text_order_is_lexicographic(a: Seq<char>, b: Seq<char>)
    ensures
        text_less(a, b) <==> (a.len() < b.len() && b.subrange(0, a.len() as int) == a) || exists|i: int|
            #[trigger] first_difference_smaller(a, b, i),
    decreases a.len(),
{
    if a.len() == 0 {
        assert(b.subrange(0, 0) =~= a);
    } else if b.len() == 0 {
    } else if a[0] != b[0] {
        if exists|i: int| #[trigger] first_difference_smaller(a, b, i) {
            let i = choose|i: int| #[trigger] first_difference_smaller(a, b, i);
            if i > 0 {
                assert(a.subrange(0, i)[0] == b.subrange(0, i)[0]);
            }
        }
        if a.len() < b.len() && b.subrange(0, a.len() as int) == a {
            assert(b.subrange(0, a.len() as int)[0] == b[0]);
        }
        if (a[0] as u32) < (b[0] as u32) {
            assert(a.subrange(0, 0) =~= b.subrange(0, 0));
            assert(first_difference_smaller(a, b, 0));
        }
    } else {
        let a1 = a.drop_first();
        let b1 = b.drop_first();
        law_text_order_is_lexicographic(a1, b1);
        // prefixes
        if a.len() < b.len() && b.subrange(0, a.len() as int) == a {
            assert(b1.subrange(0, a1.len() as int) =~= b.subrange(0, a.len() as int).drop_first());
        }
        if a1.len() < b1.len() && b1.subrange(0, a1.len() as int) == a1 {
            assert(a =~= seq![a[0]] + a1);
            assert(b.subrange(0, a.len() as int) =~= seq![b[0]] + b1.subrange(0, a1.len() as int));
            assert(b.subrange(0, a.len() as int) =~= a);
        }
        // first differences
        if exists|i: int| #[trigger] first_difference_smaller(a, b, i) {
            let i = choose|i: int| #[trigger] first_difference_smaller(a, b, i);
            assert(i != 0);
            assert(a1.subrange(0, i - 1) =~= a.subrange(0, i).drop_first());
            assert(b1.subrange(0, i - 1) =~= b.subrange(0, i).drop_first());
            assert(first_difference_smaller(a1, b1, i - 1));
        }
        if exists|i: int| #[trigger] first_difference_smaller(a1, b1, i) {
            let i = choose|i: int| #[trigger] first_difference_smaller(a1, b1, i);
            assert(a.subrange(0, i + 1) =~= seq![a[0]] + a1.subrange(0, i));
            assert(b.subrange(0, i + 1) =~= seq![b[0]] + b1.subrange(0, i));
            assert(first_difference_smaller(a, b, i + 1));
        }
    }
}

/// `text_less` never holds both ways, nor of equal texts.
pub proof fn lemma_text_less_asymmetric(a: Seq<char>, b: Seq<char>)
    ensures
        text_less(a, b) ==> !text_less(b, a),
        !text_less(a, a),
    decreases a.len(),
{
    if a.len() > 0 && b.len() > 0 && a[0] == b[0] {
        lemma_text_less_asymmetric(a.drop_first(), b.drop_first());
    }
    if a.len() > 0 {
        lemma_text_less_asymmetric(a.drop_first(), a.drop_first());
    }
}

/// Distinct texts are ordered one way or the other.
pub proof fn lemma_text_less_total(a: Seq<char>, b: Seq<char>)
    ensures
        a != b ==> text_less(a, b) || text_less(b, a),
    decreases a.len(),
{
    if a.len() > 0 && b.len() > 0 && a[0] == b[0] {
        lemma_text_less_total(a.drop_first(), b.drop_first());
        if a.drop_first() == b.drop_first() {
            assert(a =~= seq![a[0]] + a.drop_first());
            assert(b =~= seq![b[0]] + b.drop_first());
        }
    }
    if a.len() == 0 && b.len() == 0 {
        assert(a =~= b);
    }
    if a.len() > 0 && b.len() > 0 && a[0] != b[0] {
        vstd::utf8::char_u32_cast(a[0], a[0] as u32);
        vstd::utf8::char_u32_cast(b[0], b[0] as u32);
        assert((a[0] as u32) != (b[0] as u32));
    }
}

/// `text_less` is transitive.
pub proof fn lemma_text_less_transitive(a: Seq<char>, b: Seq<char>, c: Seq<char>)
    requires
        text_less(a, b),
        text_less(b, c),
    ensures
        text_less(a, c),
    decreases a.len(),
{
    if a.len() > 0 && b.len() > 0 && c.len() > 0 && a[0] == b[0] && b[0] == c[0] {
        lemma_text_less_transitive(a.drop_first(), b.drop_first(), c.drop_first());
    }
}

/// Whether `a` comes before `b` in `text_less` order.
pub fn str_less(a: &str, b: &str) -> (r: bool)
    ensures
        r == text_less(a@, b@),
{
    let n = a.unicode_len();
    let m = b.unicode_len();
    let mut i: usize = 0;
    assert(a@.skip(0) =~= a@);
    assert(b@.skip(0) =~= b@);
    while i < n && i < m && a.get_char(i) == b.get_char(i)
        invariant
            n == a@.len(),
            m == b@.len(),
            i <= n,
            i <= m,
            forall|j: int| 0 <= j < i ==> a@[j] == b@[j],
            text_less(a@, b@) == text_less(a@.skip(i as int), b@.skip(i as int)),
        decreases n - i,
    {
        proof {
            let sa = a@.skip(i as int);
            let sb = b@.skip(i as int);
            assert(sa.drop_first() =~= a@.skip(i + 1));
            assert(sb.drop_first() =~= b@.skip(i + 1));
        }
        i = i + 1;
    }
    if i == n {
        i < m
    } else if i == m {
        false
    } else {
        let ca = a.get_char(i);
        let cb = b.get_char(i);
        (ca as u32) < (cb as u32)
    }
}

/// Decimal rendering of `n` (no sign, no leading zeros).
pub open spec fn decimal(n: nat) -> Seq<char>
    decreases n,
{
    if n < 10 {
        seq![digit_char(n)]
    } else {
        decimal(n / 10).push(digit_char(n % 10))
    }
}

/// The ASCII digit for `d < 10`.
pub open spec fn digit_char(d: nat) -> char {
    if d == 0 {
        '0'
    } else if d == 1 {
        '1'
    } else if d == 2 {
        '2'
    } else if d == 3 {
        '3'
    } else if d == 4 {
        '4'
    } else if d == 5 {
        '5'
    } else if d == 6 {
        '6'
    } else if d == 7 {
        '7'
    } else if d == 8 {
        '8'
    } else {
        '9'
    }
}

fn digit_str(d: u64) -> (s: &'static str)
    requires
        d < 10,
    ensures
        s@ == seq![digit_char(d as nat)],
{
    proof {
        reveal_strlit("0");
        reveal_strlit("1");
        reveal_strlit("2");
        reveal_strlit("3");
        reveal_strlit("4");
        reveal_strlit("5");
        reveal_strlit("6");
        reveal_strlit("7");
        reveal_strlit("8");
        reveal_strlit("9");
    }
    if d == 0 {
        "0"
    } else if d == 1 {
        "1"
    } else if d == 2 {
        "2"
    } else if d == 3 {
        "3"
    } else if d == 4 {
        "4"
    } else if d == 5 {
        "5"
    } else if d == 6 {
        "6"
    } else if d == 7 {
        "7"
    } else if d == 8 {
        "8"
    } else {
        "9"
    }
}

/// `n` written in decimal.
pub fn u64_to_decimal(n: u64) -> (s: String)
    ensures
        s@ == decimal(n as nat),
    decreases n,
{
    if n < 10 {
        String::from_str(digit_str(n))
    } else {
        let head = u64_to_decimal(n / 10);
        let r = head.concat(digit_str(n % 10));
        assert(r@ =~= decimal(n as nat));
        r
    }
}

} // verus!
