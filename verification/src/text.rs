//! Character-level text handling shared by the registrar, the web surface
//! and the mesh connector: trimming, case mapping, and conversions between
//! `&str`, `String` and `Vec<char>`.

use vstd::prelude::*;

verus! {

/// Unicode `White_Space` beyond ASCII, the part of the property that
/// `char::is_whitespace` looks up in its tables.
pub uninterp spec fn unicode_white_space(c: char) -> bool;

/// Unicode general category `Cc` beyond ASCII, the part that
/// `char::is_control` looks up in its tables.
pub uninterp spec fn unicode_control(c: char) -> bool;

/// What `str::to_lowercase` returns for a text that is not all ASCII (full
/// Unicode case mapping).
pub uninterp spec fn unicode_lowercased(s: Seq<char>) -> Seq<char>;

/// What `str::to_uppercase` returns for a text that is not all ASCII (full
/// Unicode case mapping).
pub uninterp spec fn unicode_uppercased(s: Seq<char>) -> Seq<char>;

/// Every character is ASCII.
pub open spec fn is_ascii_text(s: Seq<char>) -> bool {
    forall|i: int| 0 <= i < s.len() ==> (#[trigger] s[i] as u32) < 128
}

/// ASCII whitespace: space, and tab through carriage return.
pub open spec fn ascii_white_space(c: char) -> bool {
    c == ' ' || ('\t' <= c && c <= '\r')
}

/// ASCII control characters: below space, and delete.
pub open spec fn ascii_control(c: char) -> bool {
    (c as u32) < 0x20 || (c as u32) == 0x7f
}

/// ASCII case folding of one character: `A`-`Z` to `a`-`z`.
pub open spec fn ascii_lower_char(c: char) -> char {
    if 'A' <= c && c <= 'Z' {
        ((c as u32) + 32) as char
    } else {
        c
    }
}

/// ASCII upper-casing of one character: `a`-`z` to `A`-`Z`.
pub open spec fn ascii_upper_char(c: char) -> char {
    if 'a' <= c && c <= 'z' {
        ((c as u32) - 32) as char
    } else {
        c
    }
}

/// A text with its ASCII letters folded to lower case.
pub open spec fn ascii_lowered(s: Seq<char>) -> Seq<char> {
    s.map_values(|c: char| ascii_lower_char(c))
}

/// A text with its ASCII letters made upper case.
pub open spec fn ascii_uppered(s: Seq<char>) -> Seq<char> {
    s.map_values(|c: char| ascii_upper_char(c))
}

/// Unicode `White_Space`, what `char::is_whitespace` tests.
pub open spec fn white_space(c: char) -> bool {
    if (c as u32) < 128 {
        ascii_white_space(c)
    } else {
        unicode_white_space(c)
    }
}

/// Unicode general category `Cc`, what `char::is_control` tests.
pub open spec fn control_char(c: char) -> bool {
    if (c as u32) < 128 {
        ascii_control(c)
    } else {
        unicode_control(c)
    }
}

/// What `str::to_lowercase` returns.
pub open spec fn lowercased(s: Seq<char>) -> Seq<char> {
    if is_ascii_text(s) {
        ascii_lowered(s)
    } else {
        unicode_lowercased(s)
    }
}

/// What `str::to_uppercase` returns.
pub open spec fn uppercased(s: Seq<char>) -> Seq<char> {
    if is_ascii_text(s) {
        ascii_uppered(s)
    } else {
        unicode_uppercased(s)
    }
}

/// `char::is_whitespace`: Unicode `White_Space`, whose ASCII members are
/// space and tab through carriage return; beyond ASCII the property is
/// named, not listed.
#[verifier::external_body]
pub(crate) fn is_white_space(c: char) -> (b: bool)
    ensures
        b == if (c as u32) < 128 {
            ascii_white_space(c)
        } else {
            unicode_white_space(c)
        },
{
    c.is_whitespace()
}

/// `char::is_control`: Unicode general category `Cc`, whose ASCII members
/// are the characters below space and delete; beyond ASCII the category is
/// named, not listed.
#[verifier::external_body]
pub(crate) fn is_control_char(c: char) -> (b: bool)
    ensures
        b == if (c as u32) < 128 {
            ascii_control(c)
        } else {
            unicode_control(c)
        },
{
    c.is_control()
}

/// `str::to_lowercase`: an all-ASCII text has `A`-`Z` folded to `a`-`z`
/// and nothing else changed (what the documentation of
/// `str::to_ascii_lowercase` says `to_lowercase` does for ASCII); any other
/// text's result is named, not described.
#[verifier::external_body]
pub(crate) fn to_lowercase(s: &str) -> (r: String)
    ensures
        r@ == if is_ascii_text(s@) {
            ascii_lowered(s@)
        } else {
            unicode_lowercased(s@)
        },
{
    s.to_lowercase()
}

/// `str::to_uppercase`: an all-ASCII text has `a`-`z` made `A`-`Z` and
/// nothing else changed; any other text's result is named, not described.
#[verifier::external_body]
pub(crate) fn to_uppercase(s: &str) -> (r: String)
    ensures
        r@ == if is_ascii_text(s@) {
            ascii_uppered(s@)
        } else {
            unicode_uppercased(s@)
        },
{
    s.to_uppercase()
}

/// `String::push`: appends one character.
#[verifier::external_body]
pub(crate) fn push_char(s: &mut String, c: char)
    ensures
        final(s)@ == old(s)@.push(c),
{
    s.push(c);
}

/// The characters of a string slice, in order.
pub fn chars_of(s: &str) -> (v: Vec<char>)
    ensures
        v@ == s@,
{
    let mut v: Vec<char> = Vec::new();
    for c in it: s.chars()
        invariant
            v@ == it.seq().take(it.index() as int),
            it.seq() == s@,
    {
        v.push(c);
    }
    v
}

/// A `String` holding the given characters.
pub fn string_of(v: &Vec<char>) -> (s: String)
    ensures
        s@ == v@,
{
    let mut s = String::new();
    let mut i: usize = 0;
    while i < v.len()
        invariant
            i <= v.len(),
            s@ == v@.take(i as int),
        decreases v.len() - i,
    {
        push_char(&mut s, v[i]);
        assert(v@.take(i as int).push(v@[i as int]) =~= v@.take(i + 1));
        i += 1;
    }
    assert(v@.take(v.len() as int) =~= v@);
    s
}

/// A `String` holding the characters of a literal or slice.
pub fn owned(s: &str) -> (r: String)
    ensures
        r@ == s@,
{
    let v = chars_of(s);
    string_of(&v)
}

/// Appends all of `src` to `dst`.
pub fn append_chars(dst: &mut Vec<char>, src: &Vec<char>)
    ensures
        final(dst)@ == old(dst)@ + src@,
{
    let ghost start = dst@;
    let mut i: usize = 0;
    while i < src.len()
        invariant
            i <= src.len(),
            dst@ == start + src@.take(i as int),
        decreases src.len() - i,
    {
        dst.push(src[i]);
        assert(start + src@.take(i + 1) =~= (start + src@.take(i as int)).push(src@[i as int]));
        i += 1;
    }
    assert(src@.take(src.len() as int) =~= src@);
}

/// Appends the characters of a string slice to `dst`.
pub fn append_str(dst: &mut Vec<char>, src: &str)
    ensures
        final(dst)@ == old(dst)@ + src@,
{
    let v = chars_of(src);
    append_chars(dst, &v);
}

/// `s` with leading and trailing `White_Space` removed, as `str::trim` does.
pub open spec fn trimmed(s: Seq<char>) -> Seq<char>
    decreases s.len(),
{
    if s.len() > 0 && white_space(s[0]) {
        trimmed(s.drop_first())
    } else if s.len() > 0 && white_space(s.last()) {
        trimmed(s.drop_last())
    } else {
        s
    }
}

/// Whether some character of `s` is `White_Space`.
pub open spec fn has_white_space(s: Seq<char>) -> bool {
    exists|i: int| 0 <= i < s.len() && white_space(#[trigger] s[i])
}

/// Whether some character of `s` is a control character.
pub open spec fn has_control(s: Seq<char>) -> bool {
    exists|i: int| 0 <= i < s.len() && control_char(#[trigger] s[i])
}

/// Number of times `c` occurs in `s`.
pub open spec fn count_char(s: Seq<char>, c: char) -> nat
    decreases s.len(),
{
    if s.len() == 0 {
        0
    } else {
        count_char(s.drop_last(), c) + if s.last() == c { 1nat } else { 0nat }
    }
}

/// Number of bytes that `c` takes in UTF-8.
pub open spec fn utf8_width(c: char) -> nat {
    if (c as u32) < 0x80 {
        1
    } else if (c as u32) < 0x800 {
        2
    } else if (c as u32) < 0x10000 {
        3
    } else {
        4
    }
}

/// Number of bytes of the UTF-8 encoding of `s`: what `str::len` counts.
pub open spec fn utf8_len(s: Seq<char>) -> nat
    decreases s.len(),
{
    if s.len() == 0 {
        0
    } else {
        utf8_len(s.drop_last()) + utf8_width(s.last())
    }
}

proof fn lemma_trimmed_front(s: Seq<char>, i: int)
    requires
        0 <= i <= s.len(),
        forall|k: int| 0 <= k < i ==> white_space(#[trigger] s[k]),
    ensures
        trimmed(s) == trimmed(s.subrange(i, s.len() as int)),
    decreases i,
{
    if i > 0 {
        assert(s.drop_first().subrange(i - 1, s.drop_first().len() as int) =~= s.subrange(
            i,
            s.len() as int,
        ));
        assert forall|k: int| 0 <= k < i - 1 implies white_space(#[trigger] s.drop_first()[k]) by {
            assert(s.drop_first()[k] == s[k + 1]);
        }
        lemma_trimmed_front(s.drop_first(), i - 1);
    } else {
        assert(s.subrange(0, s.len() as int) =~= s);
    }
}

proof fn lemma_trimmed_back(s: Seq<char>, j: int)
    requires
        0 < j <= s.len(),
        !white_space(s[0]),
        forall|k: int| j <= k < s.len() ==> white_space(#[trigger] s[k]),
    ensures
        trimmed(s) == trimmed(s.subrange(0, j)),
    decreases s.len() - j,
{
    if j < s.len() {
        let t = s.drop_last();
        assert(t.subrange(0, j) =~= s.subrange(0, j));
        assert forall|k: int| j <= k < t.len() implies white_space(#[trigger] t[k]) by {
            assert(t[k] == s[k]);
        }
        lemma_trimmed_back(t, j);
    } else {
        assert(s.subrange(0, j) =~= s);
    }
}

/// The characters of `s` without leading and trailing whitespace.
pub fn trim_chars(s: &Vec<char>) -> (t: Vec<char>)
    ensures
        t@ == trimmed(s@),
{
    let n = s.len();
    let mut i: usize = 0;
    while i < n && is_white_space(s[i])
        invariant
            i <= n,
            n == s.len(),
            forall|k: int| 0 <= k < i ==> white_space(#[trigger] s@[k]),
        decreases n - i,
    {
        i += 1;
    }
    proof {
        lemma_trimmed_front(s@, i as int);
    }
    if i == n {
        assert(s@.subrange(i as int, n as int) =~= Seq::<char>::empty());
        return Vec::new();
    }
    let mut j: usize = n;
    while j > i + 1 && is_white_space(s[j - 1])
        invariant
            i < j <= n,
            n == s.len(),
            !white_space(s@[i as int]),
            forall|k: int| j <= k < n ==> white_space(#[trigger] s@[k]),
        decreases j,
    {
        j -= 1;
    }
    let ghost u = s@.subrange(i as int, n as int);
    proof {
        assert forall|k: int| j - i <= k < u.len() implies white_space(#[trigger] u[k]) by {
            assert(u[k] == s@[k + i]);
        }
        lemma_trimmed_back(u, j - i);
        assert(u.subrange(0, j - i) =~= s@.subrange(i as int, j as int));
    }
    let mut t: Vec<char> = Vec::new();
    let mut k: usize = i;
    while k < j
        invariant
            i <= k <= j,
            j <= n,
            n == s.len(),
            t@ == s@.subrange(i as int, k as int),
        decreases j - k,
    {
        t.push(s[k]);
        assert(t@ =~= s@.subrange(i as int, k + 1));
        k += 1;
    }
    let ghost v = t@;
    proof {
        assert(!white_space(v[0]));
        assert(!white_space(v.last()));
    }
    t
}

/// `s` without leading and trailing spaces (U+0020 only; other whitespace
/// stays), as SQL's `trim` leaves a text.
pub open spec fn space_trimmed(s: Seq<char>) -> Seq<char>
    decreases s.len(),
{
    if s.len() > 0 && s[0] == ' ' {
        space_trimmed(s.drop_first())
    } else if s.len() > 0 && s.last() == ' ' {
        space_trimmed(s.drop_last())
    } else {
        s
    }
}

proof fn lemma_space_trimmed_front(s: Seq<char>, i: int)
    requires
        0 <= i <= s.len(),
        forall|k: int| 0 <= k < i ==> #[trigger] s[k] == ' ',
    ensures
        space_trimmed(s) == space_trimmed(s.subrange(i, s.len() as int)),
    decreases i,
{
    if i > 0 {
        assert(s.drop_first().subrange(i - 1, s.drop_first().len() as int) =~= s.subrange(
            i,
            s.len() as int,
        ));
        assert forall|k: int| 0 <= k < i - 1 implies #[trigger] s.drop_first()[k] == ' ' by {
            assert(s.drop_first()[k] == s[k + 1]);
        }
        lemma_space_trimmed_front(s.drop_first(), i - 1);
    } else {
        assert(s.subrange(0, s.len() as int) =~= s);
    }
}

proof fn lemma_space_trimmed_back(s: Seq<char>, j: int)
    requires
        0 < j <= s.len(),
        s[0] != ' ',
        forall|k: int| j <= k < s.len() ==> #[trigger] s[k] == ' ',
    ensures
        space_trimmed(s) == space_trimmed(s.subrange(0, j)),
    decreases s.len() - j,
{
    if j < s.len() {
        let t = s.drop_last();
        assert(t.subrange(0, j) =~= s.subrange(0, j));
        assert forall|k: int| j <= k < t.len() implies #[trigger] t[k] == ' ' by {
            assert(t[k] == s[k]);
        }
        lemma_space_trimmed_back(t, j);
    } else {
        assert(s.subrange(0, j) =~= s);
    }
}

/// The characters of `s` without leading and trailing spaces (U+0020).
pub fn trim_spaces(s: &Vec<char>) -> (t: Vec<char>)
    ensures
        t@ == space_trimmed(s@),
{
    let n = s.len();
    let mut i: usize = 0;
    while i < n && s[i] == ' '
        invariant
            i <= n,
            n == s.len(),
            forall|k: int| 0 <= k < i ==> #[trigger] s@[k] == ' ',
        decreases n - i,
    {
        i += 1;
    }
    proof {
        lemma_space_trimmed_front(s@, i as int);
    }
    if i == n {
        assert(s@.subrange(i as int, n as int) =~= Seq::<char>::empty());
        return Vec::new();
    }
    let mut j: usize = n;
    while j > i + 1 && s[j - 1] == ' '
        invariant
            i < j <= n,
            n == s.len(),
            s@[i as int] != ' ',
            forall|k: int| j <= k < n ==> #[trigger] s@[k] == ' ',
        decreases j,
    {
        j -= 1;
    }
    let ghost u = s@.subrange(i as int, n as int);
    proof {
        assert forall|k: int| j - i <= k < u.len() implies #[trigger] u[k] == ' ' by {
            assert(u[k] == s@[k + i]);
        }
        lemma_space_trimmed_back(u, j - i);
        assert(u.subrange(0, j - i) =~= s@.subrange(i as int, j as int));
    }
    let mut t: Vec<char> = Vec::new();
    let mut k: usize = i;
    while k < j
        invariant
            i <= k <= j,
            j <= n,
            n == s.len(),
            t@ == s@.subrange(i as int, k as int),
        decreases j - k,
    {
        t.push(s[k]);
        assert(t@ =~= s@.subrange(i as int, k + 1));
        k += 1;
    }
    let ghost v = t@;
    proof {
        assert(v[0] != ' ');
        assert(v.last() != ' ');
    }
    t
}

/// The trimmed characters of a string slice.
pub fn trim_str(s: &str) -> (t: Vec<char>)
    ensures
        t@ == trimmed(s@),
{
    let v = chars_of(s);
    trim_chars(&v)
}

/// Whether `s` contains a whitespace character.
pub fn any_white_space(s: &Vec<char>) -> (b: bool)
    ensures
        b == has_white_space(s@),
{
    let mut i: usize = 0;
    while i < s.len()
        invariant
            i <= s.len(),
            forall|k: int| 0 <= k < i ==> !white_space(#[trigger] s@[k]),
        decreases s.len() - i,
    {
        if is_white_space(s[i]) {
            return true;
        }
        i += 1;
    }
    false
}

/// Whether `s` contains a control character.
pub fn any_control(s: &Vec<char>) -> (b: bool)
    ensures
        b == has_control(s@),
{
    let mut i: usize = 0;
    while i < s.len()
        invariant
            i <= s.len(),
            forall|k: int| 0 <= k < i ==> !control_char(#[trigger] s@[k]),
        decreases s.len() - i,
    {
        if is_control_char(s[i]) {
            return true;
        }
        i += 1;
    }
    false
}

/// Whether `c` occurs in `s`.
pub fn contains_char(s: &Vec<char>, c: char) -> (b: bool)
    ensures
        b == s@.contains(c),
{
    let mut i: usize = 0;
    while i < s.len()
        invariant
            i <= s.len(),
            forall|k: int| 0 <= k < i ==> s@[k] != c,
        decreases s.len() - i,
    {
        if s[i] == c {
            assert(s@[i as int] == c);
            return true;
        }
        i += 1;
    }
    false
}

/// Index of the first occurrence of `c` in `s`, if any.
pub fn find_char(s: &Vec<char>, c: char) -> (r: Option<usize>)
    ensures
        match r {
            Some(k) => k < s.len() && s@[k as int] == c && forall|m: int| 0 <= m < k ==> s@[m]
                != c,
            None => !s@.contains(c),
        },
{
    let mut i: usize = 0;
    while i < s.len()
        invariant
            i <= s.len(),
            forall|k: int| 0 <= k < i ==> s@[k] != c,
        decreases s.len() - i,
    {
        if s[i] == c {
            return Some(i);
        }
        i += 1;
    }
    None
}

/// Number of occurrences of `c` in `s`.
pub fn count_of(s: &Vec<char>, c: char) -> (n: usize)
    ensures
        n == count_char(s@, c),
{
    let mut n: usize = 0;
    let mut i: usize = 0;
    while i < s.len()
        invariant
            i <= s.len(),
            n == count_char(s@.take(i as int), c),
            n <= i,
        decreases s.len() - i,
    {
        assert(s@.take(i + 1).drop_last() =~= s@.take(i as int));
        if s[i] == c {
            n += 1;
        }
        i += 1;
    }
    assert(s@.take(s.len() as int) =~= s@);
    n
}

/// The characters of `s` from index `from` to index `to`.
pub fn slice_chars(s: &Vec<char>, from: usize, to: usize) -> (t: Vec<char>)
    requires
        from <= to <= s.len(),
    ensures
        t@ == s@.subrange(from as int, to as int),
{
    let mut t: Vec<char> = Vec::new();
    let mut k: usize = from;
    while k < to
        invariant
            from <= k <= to,
            to <= s.len(),
            t@ == s@.subrange(from as int, k as int),
        decreases to - k,
    {
        t.push(s[k]);
        assert(t@ =~= s@.subrange(from as int, k + 1));
        k += 1;
    }
    t
}

/// Whether two character vectors are equal.
pub fn chars_eq(a: &Vec<char>, b: &Vec<char>) -> (r: bool)
    ensures
        r == (a@ == b@),
{
    if a.len() != b.len() {
        return false;
    }
    let mut i: usize = 0;
    while i < a.len()
        invariant
            i <= a.len(),
            a.len() == b.len(),
            forall|k: int| 0 <= k < i ==> a@[k] == b@[k],
        decreases a.len() - i,
    {
        if a[i] != b[i] {
            return false;
        }
        i += 1;
    }
    assert(a@ =~= b@);
    true
}

/// Whether the UTF-8 encoding of `s` is longer than `limit` bytes.
pub fn utf8_longer_than(s: &Vec<char>, limit: usize) -> (b: bool)
    requires
        limit <= 1_000_000,
    ensures
        b == (utf8_len(s@) > limit),
{
    let mut total: usize = 0;
    let mut i: usize = 0;
    while i < s.len()
        invariant
            i <= s.len(),
            limit <= 1_000_000,
            total == utf8_len(s@.take(i as int)),
            total <= limit,
        decreases s.len() - i,
    {
        assert(s@.take(i + 1).drop_last() =~= s@.take(i as int));
        let c = s[i] as u32;
        let w: usize = if c < 0x80 {
            1
        } else if c < 0x800 {
            2
        } else if c < 0x10000 {
            3
        } else {
            4
        };
        total = total + w;
        i += 1;
        if total > limit {
            proof {
                lemma_utf8_len_prefix(s@, i as int);
            }
            return true;
        }
    }
    assert(s@.take(s.len() as int) =~= s@);
    false
}

proof fn lemma_utf8_len_prefix(s: Seq<char>, k: int)
    requires
        0 <= k <= s.len(),
    ensures
        utf8_len(s.take(k)) <= utf8_len(s),
    decreases s.len(),
{
    if k < s.len() {
        assert(s.drop_last().take(k) =~= s.take(k));
        lemma_utf8_len_prefix(s.drop_last(), k);
    } else {
        assert(s.take(k) =~= s);
    }
}

/// Whitespace padding around a text that neither starts nor ends with
/// whitespace is exactly what trimming removes.
pub proof fn lemma_trim_padding(front: Seq<char>, t: Seq<char>, back: Seq<char>)
    requires
        forall|i: int| 0 <= i < front.len() ==> white_space(#[trigger] front[i]),
        forall|i: int| 0 <= i < back.len() ==> white_space(#[trigger] back[i]),
        t.len() > 0,
        !white_space(t[0]),
        !white_space(t.last()),
    ensures
        trimmed(front + t + back) == t,
{
    let s = front + t + back;
    assert forall|k: int| 0 <= k < front.len() implies white_space(#[trigger] s[k]) by {
        assert(s[k] == front[k]);
    }
    lemma_trimmed_front(s, front.len() as int);
    let u = s.subrange(front.len() as int, s.len() as int);
    assert(u =~= t + back);
    assert forall|k: int| t.len() <= k < u.len() implies white_space(#[trigger] u[k]) by {
        assert(u[k] == back[k - t.len()]);
    }
    assert(u[0] == t[0]);
    lemma_trimmed_back(u, t.len() as int);
    assert(u.subrange(0, t.len() as int) =~= t);
}

/// Trimming keeps a contiguous piece of the text.
pub proof fn lemma_trimmed_piece(s: Seq<char>)
    ensures
        exists|i: int, j: int| 0 <= i <= j <= s.len() && trimmed(s) == s.subrange(i, j),
    decreases s.len(),
{
    if s.len() > 0 && white_space(s[0]) {
        lemma_trimmed_piece(s.drop_first());
        let (i, j) = choose|i: int, j: int|
            0 <= i <= j <= s.drop_first().len() && trimmed(s.drop_first()) == s.drop_first().subrange(i, j);
        assert(s.drop_first().subrange(i, j) =~= s.subrange(i + 1, j + 1));
    } else if s.len() > 0 && white_space(s.last()) {
        lemma_trimmed_piece(s.drop_last());
        let (i, j) = choose|i: int, j: int|
            0 <= i <= j <= s.drop_last().len() && trimmed(s.drop_last()) == s.drop_last().subrange(i, j);
        assert(s.drop_last().subrange(i, j) =~= s.subrange(i, j));
    } else {
        assert(s.subrange(0, s.len() as int) =~= s);
    }
}

/// Folding ASCII case twice folds nothing more.
pub proof fn lemma_ascii_lowered_idempotent(s: Seq<char>)
    ensures
        ascii_lowered(ascii_lowered(s)) == ascii_lowered(s),
{
    assert(ascii_lowered(ascii_lowered(s)) =~= ascii_lowered(s));
}

/// Two texts that share a prefix are equal when what follows it is.
pub proof fn lemma_prefix_cancel(p: Seq<char>, a: Seq<char>, b: Seq<char>)
    requires
        p + a == p + b,
    ensures
        a == b,
{
    let (pa, pb) = (p + a, p + b);
    assert(pa.len() == p.len() + a.len());
    assert(pb.len() == p.len() + b.len());
    assert(a.len() == b.len());
    assert forall|i: int| 0 <= i < a.len() implies a[i] == b[i] by {
        assert((p + a)[p.len() + i] == a[i]);
        assert((p + b)[p.len() + i] == b[i]);
    }
    assert(a =~= b);
}

/// Splitting at the first delimiter: fields free of the delimiter are
/// recovered exactly from `field + delimiter + rest`.
pub proof fn lemma_split_first(x1: Seq<char>, y1: Seq<char>, x2: Seq<char>, y2: Seq<char>, c: char)
    requires
        !x1.contains(c),
        !x2.contains(c),
        x1 + seq![c] + y1 == x2 + seq![c] + y2,
    ensures
        x1 == x2,
        y1 == y2,
{
    let s1 = x1 + seq![c] + y1;
    let s2 = x2 + seq![c] + y2;
    if x1.len() < x2.len() {
        assert(s1[x1.len() as int] == c);
        assert(s2[x1.len() as int] == x2[x1.len() as int]);
        assert(x2.contains(c));
    }
    if x2.len() < x1.len() {
        assert(s2[x2.len() as int] == c);
        assert(s1[x2.len() as int] == x1[x2.len() as int]);
        assert(x1.contains(c));
    }
    assert(x1.len() == x2.len());
    assert forall|i: int| 0 <= i < x1.len() implies x1[i] == x2[i] by {
        assert(s1[i] == x1[i]);
        assert(s2[i] == x2[i]);
    }
    assert(x1 =~= x2);
    assert(s1.len() == s2.len());
    assert(y1.len() == y2.len());
    assert forall|i: int| 0 <= i < y1.len() implies y1[i] == y2[i] by {
        assert(s1[x1.len() + 1 + i] == y1[i]);
        assert(s2[x2.len() + 1 + i] == y2[i]);
    }
    assert(y1 =~= y2);
}

/// Trimming twice removes nothing more than trimming once.
pub proof fn lemma_trim_idempotent(s: Seq<char>)
    ensures
        trimmed(trimmed(s)) == trimmed(s),
    decreases s.len(),
{
    if s.len() > 0 && white_space(s[0]) {
        lemma_trim_idempotent(s.drop_first());
    } else if s.len() > 0 && white_space(s.last()) {
        lemma_trim_idempotent(s.drop_last());
    }
}

/// A trimmed text neither starts nor ends with whitespace.
pub proof fn lemma_trimmed_ends(s: Seq<char>)
    ensures
        trimmed(s).len() > 0 ==> !white_space(trimmed(s)[0]) && !white_space(
            trimmed(s).last(),
        ),
        trimmed(s).len() <= s.len(),
    decreases s.len(),
{
    if s.len() > 0 && white_space(s[0]) {
        lemma_trimmed_ends(s.drop_first());
    } else if s.len() > 0 && white_space(s.last()) {
        lemma_trimmed_ends(s.drop_last());
    }
}

/// The pieces of `s` between occurrences of `c`, as `str::split` yields
/// them (one empty piece for an empty text).
pub open spec fn split_at(s: Seq<char>, c: char) -> Seq<Seq<char>>
    decreases s.len(),
{
    if s.len() == 0 {
        seq![seq![]]
    } else if s.last() == c {
        split_at(s.drop_last(), c).push(seq![])
    } else {
        let p = split_at(s.drop_last(), c);
        p.update(p.len() - 1, p.last().push(s.last()))
    }
}

/// The texts held by a vector of character vectors.
pub open spec fn texts(v: Seq<Vec<char>>) -> Seq<Seq<char>> {
    Seq::new(v.len(), |i: int| v[i]@)
}

pub proof fn lemma_split_nonempty(s: Seq<char>, c: char)
    ensures
        split_at(s, c).len() >= 1,
    decreases s.len(),
{
    if s.len() > 0 {
        lemma_split_nonempty(s.drop_last(), c);
    }
}

/// Splitting at a separator splits each side independently.
pub proof fn lemma_split_concat(a: Seq<char>, c: char, b: Seq<char>)
    ensures
        split_at(a + seq![c] + b, c) == split_at(a, c) + split_at(b, c),
    decreases b.len(),
{
    if b.len() == 0 {
        assert((a + seq![c] + b).drop_last() =~= a);
        assert(split_at(a, c) + split_at(b, c) =~= split_at(a, c).push(seq![]));
    } else {
        let b1 = b.drop_last();
        lemma_split_concat(a, c, b1);
        assert((a + seq![c] + b).drop_last() =~= a + seq![c] + b1);
        lemma_split_nonempty(b1, c);
        lemma_split_nonempty(a, c);
        if b.last() == c {
            assert(split_at(a, c) + split_at(b, c) =~= (split_at(a, c) + split_at(b1, c)).push(
                seq![],
            ));
        } else {
            let p = split_at(b1, c);
            assert(split_at(a, c) + split_at(b, c) =~= (split_at(a, c) + p).update(
                split_at(a, c).len() + p.len() - 1,
                p.last().push(b.last()),
            ));
        }
    }
}

/// Splits `s` at every occurrence of `c`.
pub fn split_chars(s: &Vec<char>, c: char) -> (r: Vec<Vec<char>>)
    ensures
        texts(r@) == split_at(s@, c),
{
    let mut done: Vec<Vec<char>> = Vec::new();
    let mut cur: Vec<char> = Vec::new();
    let mut i: usize = 0;
    assert(s@.take(0) =~= Seq::<char>::empty());
    assert(texts(done@).push(cur@) =~= split_at(s@.take(0), c));
    while i < s.len()
        invariant
            i <= s.len(),
            texts(done@).push(cur@) == split_at(s@.take(i as int), c),
        decreases s.len() - i,
    {
        let ghost before = texts(done@).push(cur@);
        assert(s@.take(i + 1).drop_last() =~= s@.take(i as int));
        if s[i] == c {
            let piece = cur;
            done.push(piece);
            cur = Vec::new();
            assert(texts(done@).push(cur@) =~= before.push(seq![]));
        } else {
            cur.push(s[i]);
            assert(texts(done@).push(cur@) =~= before.update(
                before.len() - 1,
                before.last().push(s@[i as int]),
            ));
        }
        i += 1;
    }
    assert(s@.take(s.len() as int) =~= s@);
    done.push(cur);
    assert(texts(done@) =~= split_at(s@, c)) by {
        assert(texts(done@) =~= texts(done@.drop_last()).push(done@.last()@));
    }
    done
}

} // verus!
