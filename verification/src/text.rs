//! Character-level text model shared by the parser, the router and the
//! handlers: what a line, a word, a path segment and a file extension are,
//! and executable scanners proved against those definitions.

use vstd::prelude::*;
use vstd::slice::slice_subrange;
use vstd::string::StrSliceExecFns;
use vstd::string::StringExecFns;

verus! {

/// Length of the longest prefix of `s` whose items all satisfy `keep`.
pub open spec fn prefix_len<A>(s: Seq<A>, keep: spec_fn(A) -> bool) -> nat
    decreases s.len(),
{
    if s.len() == 0 || !keep(s[0]) {
        0
    } else {
        1 + prefix_len(s.drop_first(), keep)
    }
}

/// The test "is not `c`".
pub open spec fn other_than(c: char) -> spec_fn(char) -> bool {
    |x: char| x != c
}

/// Position of the first `c` in `s`, or `s.len()` when `s` holds no `c`.
pub open spec fn index_of(s: Seq<char>, c: char) -> nat {
    prefix_len(s, other_than(c))
}

/// The characters that separate words: the Unicode `White_Space` set.
pub open spec fn is_whitespace(c: char) -> bool {
    let n = c as u32;
    ||| 0x09 <= n <= 0x0d
    ||| n == 0x20
    ||| n == 0x85
    ||| n == 0xa0
    ||| n == 0x1680
    ||| 0x2000 <= n <= 0x200a
    ||| n == 0x2028
    ||| n == 0x2029
    ||| n == 0x202f
    ||| n == 0x205f
    ||| n == 0x3000
}

/// Number of whitespace characters at the front of `s`.
pub open spec fn leading_whitespace(s: Seq<char>) -> nat {
    prefix_len(s, |x: char| is_whitespace(x))
}

/// Number of characters at the front of `s` before the first whitespace.
pub open spec fn leading_word(s: Seq<char>) -> nat {
    prefix_len(s, |x: char| !is_whitespace(x))
}

/// The `k`-th whitespace-separated word of `s`, counting from zero; empty
/// when `s` has `k` words or fewer.
pub open spec fn word(s: Seq<char>, k: nat) -> Seq<char>
    decreases k,
{
    let t = s.skip(leading_whitespace(s) as int);
    let n = leading_word(t) as int;
    if k == 0 {
        t.take(n)
    } else {
        word(t.skip(n), (k - 1) as nat)
    }
}

/// The `k`-th piece of `s` when it is cut at every `/`, counting from zero;
/// empty when `s` has `k` pieces or fewer.
pub open spec fn segment(s: Seq<char>, k: nat) -> Seq<char>
    decreases k,
{
    let n = index_of(s, '/') as int;
    if k == 0 {
        s.take(n)
    } else if n >= s.len() {
        Seq::empty()
    } else {
        segment(s.skip(n + 1), (k - 1) as nat)
    }
}

/// Whether `pat` occurs in `s` as a contiguous run.
pub open spec fn contains_text(s: Seq<char>, pat: Seq<char>) -> bool {
    exists|i: int| occurs_at(s, pat, i)
}

/// Whether `pat` occurs in `s` starting at position `i`.
pub open spec fn occurs_at(s: Seq<char>, pat: Seq<char>, i: int) -> bool {
    0 <= i && i + pat.len() <= s.len() && s.subrange(i, i + pat.len()) == pat
}

/// `s` without one trailing carriage return, if it has one.
pub open spec fn chomp(s: Seq<char>) -> Seq<char> {
    if s.len() > 0 && s.last() == '\r' {
        s.drop_last()
    } else {
        s
    }
}

/// The lines of `s`. A line ends at `\n`; the `\n`, and a `\r` directly
/// before it, are not part of the line. Text after the last `\n` is a line
/// of its own unless it is empty.
pub open spec fn lines(s: Seq<char>) -> Seq<Seq<char>>
    decreases s.len(),
{
    if s.len() == 0 {
        Seq::empty()
    } else {
        let n = index_of(s, '\n') as int;
        if n >= s.len() {
            seq![s]
        } else {
            seq![chomp(s.take(n))] + lines(s.skip(n + 1))
        }
    }
}

/// What `prefix_len` returns: every item before it is kept, and the item at
/// it, if there is one, is not.
pub proof fn lemma_prefix_len<A>(s: Seq<A>, keep: spec_fn(A) -> bool)
    ensures
        prefix_len(s, keep) <= s.len(),
        forall|j: int| 0 <= j < prefix_len(s, keep) ==> keep(#[trigger] s[j]),
        prefix_len(s, keep) < s.len() ==> !keep(s[prefix_len(s, keep) as int]),
    decreases s.len(),
{
    if s.len() == 0 || !keep(s[0]) {
    } else {
        let t = s.drop_first();
        lemma_prefix_len(t, keep);
        assert forall|j: int| 0 <= j < prefix_len(s, keep) implies keep(#[trigger] s[j]) by {
            if j > 0 {
                assert(s[j] == t[j - 1]);
            }
        }
        assert(prefix_len(s, keep) < s.len() ==> s[prefix_len(s, keep) as int] == t[prefix_len(
            t,
            keep,
        ) as int]);
    }
}

/// `prefix_len` is the only position with the two properties above.
pub proof fn lemma_prefix_len_is<A>(s: Seq<A>, keep: spec_fn(A) -> bool, n: int)
    requires
        0 <= n <= s.len(),
        forall|j: int| 0 <= j < n ==> keep(#[trigger] s[j]),
        n < s.len() ==> !keep(s[n]),
    ensures
        prefix_len(s, keep) == n,
    decreases s.len(),
{
    if n == 0 {
    } else {
        assert(keep(s[0]));
        let t = s.drop_first();
        assert forall|j: int| 0 <= j < n - 1 implies keep(#[trigger] t[j]) by {
            assert(t[j] == s[j + 1]);
        }
        lemma_prefix_len_is(t, keep, n - 1);
    }
}

/// Whether `c` separates words.
pub fn is_space(c: char) -> (r: bool)
    ensures
        r == is_whitespace(c),
{
    let n: u32 = c as u32;
    (0x09 <= n && n <= 0x0d) || n == 0x20 || n == 0x85 || n == 0xa0 || n == 0x1680 || (0x2000 <= n
        && n <= 0x200a) || n == 0x2028 || n == 0x2029 || n == 0x202f || n == 0x205f || n == 0x3000
}

/// Collects the characters of `s` into a vector.
pub fn chars_of(s: &str) -> (v: Vec<char>)
    ensures
        v@ == s@,
{
    let mut v: Vec<char> = Vec::new();
    for c in it: s.chars()
        invariant
            it.seq() == s@,
            v@ == it.seq().take(it.index() as int),
    {
        v.push(c);
    }
    v
}

/// The characters `from..to` of `s` as an owned string.
pub fn substring(s: &str, from: usize, to: usize) -> (r: String)
    requires
        from <= to <= s@.len(),
    ensures
        r@ == s@.subrange(from as int, to as int),
{
    String::from_str(s.substring_char(from, to))
}

/// Position of the first `c` in `s`, or `s.len()` when there is none.
pub fn find_char(s: &[char], c: char) -> (r: usize)
    ensures
        r == index_of(s@, c),
        r <= s@.len(),
{
    let mut i: usize = 0;
    while i < s.len() && s[i] != c
        invariant
            i <= s@.len(),
            forall|j: int| 0 <= j < i ==> #[trigger] s@[j] != c,
        decreases s@.len() - i,
    {
        i = i + 1;
    }
    proof {
        lemma_prefix_len_is(s@, other_than(c), i as int);
    }
    i
}

/// Number of whitespace characters at the front of `s`.
pub fn skip_whitespace(s: &[char]) -> (r: usize)
    ensures
        r == leading_whitespace(s@),
        r <= s@.len(),
{
    let mut i: usize = 0;
    while i < s.len() && is_space(s[i])
        invariant
            i <= s@.len(),
            forall|j: int| 0 <= j < i ==> is_whitespace(#[trigger] s@[j]),
        decreases s@.len() - i,
    {
        i = i + 1;
    }
    proof {
        lemma_prefix_len_is(s@, |x: char| is_whitespace(x), i as int);
    }
    i
}

/// Number of characters at the front of `s` before the first whitespace.
pub fn skip_word(s: &[char]) -> (r: usize)
    ensures
        r == leading_word(s@),
        r <= s@.len(),
{
    let mut i: usize = 0;
    while i < s.len() && !is_space(s[i])
        invariant
            i <= s@.len(),
            forall|j: int| 0 <= j < i ==> !is_whitespace(#[trigger] s@[j]),
        decreases s@.len() - i,
    {
        i = i + 1;
    }
    proof {
        lemma_prefix_len_is(s@, |x: char| !is_whitespace(x), i as int);
    }
    i
}

/// Whether `s` and `t` hold the same characters.
pub fn same_text(s: &[char], t: &[char]) -> (r: bool)
    ensures
        r == (s@ == t@),
{
    if s.len() != t.len() {
        return false;
    }
    let mut i: usize = 0;
    while i < s.len()
        invariant
            i <= s@.len(),
            s@.len() == t@.len(),
            forall|j: int| 0 <= j < i ==> s@[j] == t@[j],
        decreases s@.len() - i,
    {
        if s[i] != t[i] {
            return false;
        }
        i = i + 1;
    }
    assert(s@ =~= t@);
    true
}

/// Whether the characters `s` spell the string `lit`.
pub fn is_text(s: &[char], lit: &str) -> (r: bool)
    ensures
        r == (s@ == lit@),
{
    let t = chars_of(lit);
    same_text(s, t.as_slice())
}

/// Whether `pat` occurs somewhere in `s`.
pub fn has_text(s: &[char], pat: &str) -> (r: bool)
    ensures
        r == contains_text(s@, pat@),
{
    let p = chars_of(pat);
    let n: usize = s.len();
    let m: usize = p.len();
    if m > n {
        return false;
    }
    let last: usize = n - m;
    let mut i: usize = 0;
    loop
        invariant
            n == s@.len(),
            m == p@.len(),
            p@ == pat@,
            last == n - m,
            i <= last,
            forall|j: int| 0 <= j < i ==> !occurs_at(s@, pat@, j),
        decreases last - i,
    {
        if same_text(slice_subrange(s, i, i + m), p.as_slice()) {
            assert(occurs_at(s@, pat@, i as int));
            return true;
        }
        if i == last {
            return false;
        }
        i = i + 1;
    }
}

/// The decimal digit for `d`, which is below ten.
pub open spec fn digit(d: nat) -> char {
    if d == 0 {
        '0'
    } else if d == 1 {
        '1'
    } else if d == 2 {
        '2'
    } else if d == 3 {
        '3'
    } else if d == 4 {
        '4'
    } else if d == 5 {
        '5'
    } else if d == 6 {
        '6'
    } else if d == 7 {
        '7'
    } else if d == 8 {
        '8'
    } else {
        '9'
    }
}

/// The number that the decimal digit `c` stands for.
pub open spec fn digit_value(c: char) -> nat {
    if c == '1' {
        1
    } else if c == '2' {
        2
    } else if c == '3' {
        3
    } else if c == '4' {
        4
    } else if c == '5' {
        5
    } else if c == '6' {
        6
    } else if c == '7' {
        7
    } else if c == '8' {
        8
    } else if c == '9' {
        9
    } else {
        0
    }
}

/// `n` written in decimal, without leading zeros.
pub open spec fn decimal(n: nat) -> Seq<char>
    decreases n,
{
    if n < 10 {
        seq![digit(n)]
    } else {
        decimal(n / 10).push(digit(n % 10))
    }
}

/// The number that the decimal numeral `s` stands for.
pub open spec fn number_of(s: Seq<char>) -> nat
    decreases s.len(),
{
    if s.len() == 0 {
        0
    } else {
        number_of(s.drop_last()) * 10 + digit_value(s.last())
    }
}

/// A number is read back from its decimal numeral.
pub proof fn lemma_decimal(n: nat)
    ensures
        number_of(decimal(n)) == n,
        decimal(n).len() >= 1,
    decreases n,
{
    if n < 10 {
        assert(decimal(n).drop_last() =~= Seq::<char>::empty());
        assert(number_of(decimal(n).drop_last()) == 0);
    } else {
        lemma_decimal(n / 10);
        assert(decimal(n).drop_last() =~= decimal(n / 10));
    }
}

/// The one-character string that holds the digit for `d`.
fn digit_text(d: usize) -> (r: &'static str)
    requires
        d < 10,
    ensures
        r@ == seq![digit(d as nat)],
{
    proof {
        reveal_strlit("0");
        reveal_strlit("1");
        reveal_strlit("2");
        reveal_strlit("3");
        reveal_strlit("4");
        reveal_strlit("5");
        reveal_strlit("6");
        reveal_strlit("7");
        reveal_strlit("8");
        reveal_strlit("9");
    }
    let r = if d == 0 {
        "0"
    } else if d == 1 {
        "1"
    } else if d == 2 {
        "2"
    } else if d == 3 {
        "3"
    } else if d == 4 {
        "4"
    } else if d == 5 {
        "5"
    } else if d == 6 {
        "6"
    } else if d == 7 {
        "7"
    } else if d == 8 {
        "8"
    } else {
        "9"
    };
    assert(r@ =~= seq![digit(d as nat)]);
    r
}

/// `n` written in decimal.
pub fn decimal_text(n: usize) -> (r: String)
    ensures
        r@ == decimal(n as nat),
    decreases n,
{
    if n < 10 {
        String::from_str(digit_text(n))
    } else {
        let mut r = decimal_text(n / 10);
        r.append(digit_text(n % 10));
        assert(r@ =~= decimal(n as nat));
        r
    }
}

/// Length of the longest suffix of `s` whose items all satisfy `keep`.
pub open spec fn suffix_len<A>(s: Seq<A>, keep: spec_fn(A) -> bool) -> nat
    decreases s.len(),
{
    if s.len() == 0 || !keep(s.last()) {
        0
    } else {
        1 + suffix_len(s.drop_last(), keep)
    }
}

/// The text of `s` after its first `c`; empty when `s` holds no `c`.
pub open spec fn after_first(s: Seq<char>, c: char) -> Seq<char> {
    if index_of(s, c) < s.len() {
        s.skip(index_of(s, c) as int + 1)
    } else {
        Seq::empty()
    }
}

/// The last component of a relative file name: the text after its last
/// `/`, or the whole name when it holds none.
pub open spec fn last_component(name: Seq<char>) -> Seq<char> {
    name.skip(name.len() - suffix_len(name, other_than('/')))
}

/// The extension of a single component: the text after its last dot. A
/// component without a dot, one whose only dot is its first character, and
/// the component `..` have no extension.
pub open spec fn component_extension(base: Seq<char>) -> Option<Seq<char>> {
    let n = suffix_len(base, other_than('.')) as int;
    if n + 1 >= base.len() || base == seq!['.', '.'] {
        None
    } else {
        Some(base.skip(base.len() - n))
    }
}

/// The extension of a relative file name: that of its last component. A
/// dot in a directory of the name gives the file no extension.
pub open spec fn extension(name: Seq<char>) -> Option<Seq<char>> {
    component_extension(last_component(name))
}

/// What `suffix_len` returns: every item of that suffix is kept, and the
/// item before it, if there is one, is not.
pub proof fn lemma_suffix_len<A>(s: Seq<A>, keep: spec_fn(A) -> bool)
    ensures
        suffix_len(s, keep) <= s.len(),
        forall|j: int| s.len() - suffix_len(s, keep) <= j < s.len() ==> keep(#[trigger] s[j]),
        suffix_len(s, keep) < s.len() ==> !keep(s[s.len() - suffix_len(s, keep) - 1]),
    decreases s.len(),
{
    if s.len() == 0 || !keep(s.last()) {
    } else {
        let t = s.drop_last();
        lemma_suffix_len(t, keep);
        assert forall|j: int| s.len() - suffix_len(s, keep) <= j < s.len() implies keep(
            #[trigger] s[j],
        ) by {
            if j < t.len() {
                assert(s[j] == t[j]);
            }
        }
        assert(suffix_len(s, keep) < s.len() ==> s[s.len() - suffix_len(s, keep) - 1] == t[t.len()
            - suffix_len(t, keep) - 1]);
    }
}

/// `suffix_len` is the only length whose suffix is kept whole and cannot
/// be made longer.
pub proof fn lemma_suffix_len_is<A>(s: Seq<A>, keep: spec_fn(A) -> bool, n: int)
    requires
        0 <= n <= s.len(),
        forall|j: int| s.len() - n <= j < s.len() ==> keep(#[trigger] s[j]),
        n < s.len() ==> !keep(s[s.len() - n - 1]),
    ensures
        suffix_len(s, keep) == n,
    decreases s.len(),
{
    if n == 0 {
    } else {
        assert(keep(s[s.len() - 1]));
        let t = s.drop_last();
        assert forall|j: int| t.len() - (n - 1) <= j < t.len() implies keep(#[trigger] t[j]) by {
            assert(t[j] == s[j]);
        }
        lemma_suffix_len_is(t, keep, n - 1);
    }
}

/// Where the extension of the single component `s` starts, if it has one.
fn component_extension_start(s: &[char]) -> (r: Option<usize>)
    ensures
        match r {
            Some(i) => i <= s@.len() && component_extension(s@) == Some(s@.skip(i as int)),
            None => component_extension(s@) is None,
        },
{
    let n: usize = s.len();
    let mut i: usize = n;
    while i > 0 && s[i - 1] != '.'
        invariant
            n == s@.len(),
            i <= n,
            forall|j: int| i <= j < n ==> #[trigger] s@[j] != '.',
        decreases i,
    {
        i = i - 1;
    }
    proof {
        lemma_suffix_len_is(s@, other_than('.'), n - i);
    }
    if i <= 1 {
        return None;
    }
    if n == 2 && s[0] == '.' {
        assert(s@ =~= seq!['.', '.']);
        return None;
    }
    assert(s@ != seq!['.', '.']) by {
        if s@ == seq!['.', '.'] {
            assert(s@.len() == 2 && s@[0] == '.');
        }
    }
    Some(i)
}

/// Where the extension of the relative file name `s` starts, if it has
/// one.
pub fn extension_start(s: &[char]) -> (r: Option<usize>)
    ensures
        match r {
            Some(i) => i <= s@.len() && extension(s@) == Some(s@.skip(i as int)),
            None => extension(s@) is None,
        },
{
    let n: usize = s.len();
    let mut base: usize = n;
    while base > 0 && s[base - 1] != '/'
        invariant
            n == s@.len(),
            base <= n,
            forall|j: int| base <= j < n ==> #[trigger] s@[j] != '/',
        decreases base,
    {
        base = base - 1;
    }
    proof {
        lemma_suffix_len_is(s@, other_than('/'), n - base);
        assert(s@.subrange(base as int, n as int) =~= last_component(s@));
    }
    match component_extension_start(slice_subrange(s, base, n)) {
        None => None,
        Some(i) => {
            assert(s@.subrange(base as int, n as int).skip(i as int) =~= s@.skip(base + i));
            Some(base + i)
        },
    }
}

/// Where the `k`-th piece of `s` between slashes starts and ends.
pub fn segment_bounds(s: &[char], k: usize) -> (r: (usize, usize))
    ensures
        r.0 <= r.1 <= s@.len(),
        s@.subrange(r.0 as int, r.1 as int) == segment(s@, k as nat),
{
    let n: usize = s.len();
    let mut rest: usize = 0;
    let mut left: usize = k;
    assert(s@.skip(0) =~= s@);
    loop
        invariant
            n == s@.len(),
            rest <= n,
            left <= k,
            segment(s@, k as nat) == segment(s@.skip(rest as int), left as nat),
        decreases left,
    {
        let i = find_char(slice_subrange(s, rest, n), '/');
        let end: usize = rest + i;
        proof {
            assert(s@.skip(rest as int).take(i as int) =~= s@.subrange(rest as int, end as int));
        }
        if left == 0 {
            return (rest, end);
        }
        if end >= n {
            assert(s@.subrange(n as int, n as int) =~= Seq::<char>::empty());
            return (n, n);
        }
        proof {
            assert(s@.skip(rest as int).skip(i as int + 1) =~= s@.skip(end as int + 1));
        }
        left = left - 1;
        rest = end + 1;
    }
}

/// The first `c` of a text that holds none before a given `c` is that one.
pub proof fn lemma_index_of_join(a: Seq<char>, c: char, rest: Seq<char>)
    requires
        !a.contains(c),
    ensures
        index_of(a + seq![c] + rest, c) == a.len(),
        index_of(a, c) == a.len(),
{
    let s = a + seq![c] + rest;
    assert forall|j: int| 0 <= j < a.len() implies other_than(c)(#[trigger] s[j]) by {
        assert(s[j] == a[j]);
        assert(a.contains(a[j]));
    }
    assert(s[a.len() as int] == c);
    lemma_prefix_len_is(s, other_than(c), a.len() as int);
    assert forall|j: int| 0 <= j < a.len() implies other_than(c)(#[trigger] a[j]) by {
        assert(a.contains(a[j]));
    }
    lemma_prefix_len_is(a, other_than(c), a.len() as int);
}

/// A text without a line feed, followed by a line break, is the first line
/// of what it stands in.
pub proof fn lemma_lines_join(a: Seq<char>, rest: Seq<char>)
    requires
        !a.contains('\n'),
    ensures
        lines(a + "\r\n"@ + rest) == seq![a] + lines(rest),
{
    reveal_strlit("\r\n");
    let s = a + "\r\n"@ + rest;
    let head = a + seq!['\r'];
    assert("\r\n"@ =~= seq!['\r', '\n']);
    assert(s =~= head + seq!['\n'] + rest);
    assert(!head.contains('\n')) by {
        if head.contains('\n') {
            let i = choose|i: int| 0 <= i < head.len() && head[i] == '\n';
            if i < a.len() {
                assert(a[i] == '\n');
                assert(a.contains('\n'));
            }
        }
    }
    lemma_index_of_join(head, '\n', rest);
    assert(s.take(head.len() as int) =~= head);
    assert(chomp(head) =~= a);
    assert(s.skip(head.len() as int + 1) =~= rest);
}

/// A text without a line feed is one line, or none when it is empty.
pub proof fn lemma_lines_single(a: Seq<char>)
    requires
        !a.contains('\n'),
    ensures
        lines(a) == if a.len() == 0 {
            Seq::<Seq<char>>::empty()
        } else {
            seq![a]
        },
{
    lemma_index_of_join(a, '\n', Seq::empty());
}

/// A run of characters that are not whitespace, followed by nothing or by
/// whitespace, is the first word; the words after it are those of the rest.
pub proof fn lemma_word_first(w: Seq<char>, rest: Seq<char>, k: nat)
    requires
        w.len() > 0,
        forall|i: int| 0 <= i < w.len() ==> !is_whitespace(#[trigger] w[i]),
        rest.len() == 0 || is_whitespace(rest[0]),
    ensures
        word(w + rest, 0) == w,
        k > 0 ==> word(w + rest, k) == word(rest, (k - 1) as nat),
{
    let s = w + rest;
    assert(s[0] == w[0]);
    lemma_prefix_len_is(s, |x: char| is_whitespace(x), 0);
    let t = s.skip(0);
    assert(t =~= s);
    assert forall|j: int| 0 <= j < w.len() implies !is_whitespace(#[trigger] t[j]) by {
        assert(t[j] == w[j]);
    }
    if rest.len() > 0 {
        assert(t[w.len() as int] == rest[0]);
    }
    lemma_prefix_len_is(t, |x: char| !is_whitespace(x), w.len() as int);
    assert(t.take(w.len() as int) =~= w);
    assert(t.skip(w.len() as int) =~= rest);
}

/// Whitespace before a text does not change its words.
pub proof fn lemma_word_after_space(c: char, rest: Seq<char>, k: nat)
    requires
        is_whitespace(c),
    ensures
        word(seq![c] + rest, k) == word(rest, k),
{
    let s = seq![c] + rest;
    assert(s[0] == c);
    assert(s.drop_first() =~= rest);
    lemma_prefix_len(rest, |x: char| is_whitespace(x));
    assert(leading_whitespace(s) == 1 + leading_whitespace(rest));
    assert(s.skip(leading_whitespace(s) as int) =~= rest.skip(leading_whitespace(rest) as int));
}

/// A kept run after a text adds its length to the kept suffix.
pub proof fn lemma_suffix_len_join<A>(a: Seq<A>, b: Seq<A>, keep: spec_fn(A) -> bool)
    requires
        forall|j: int| 0 <= j < b.len() ==> keep(#[trigger] b[j]),
    ensures
        suffix_len(a + b, keep) == suffix_len(a, keep) + b.len(),
{
    let s = a + b;
    let n = suffix_len(a, keep) as int;
    lemma_suffix_len(a, keep);
    assert forall|j: int| s.len() - (n + b.len()) <= j < s.len() implies keep(#[trigger] s[j]) by {
        if j < a.len() {
            assert(s[j] == a[j]);
        } else {
            assert(s[j] == b[j - a.len()]);
        }
    }
    if n < a.len() {
        assert(s[a.len() - n - 1] == a[a.len() - n - 1]);
    }
    lemma_suffix_len_is(s, keep, n + b.len());
}

/// A component that ends in a dot and a text without dots has that text
/// as its extension, provided something stands before the dot.
proof fn lemma_component_extension_of_join(stem: Seq<char>, ext: Seq<char>)
    requires
        stem.len() > 0,
        ext.len() > 0,
        !ext.contains('.'),
    ensures
        component_extension(stem + seq!['.'] + ext) == Some(ext),
{
    let name = stem + seq!['.'] + ext;
    assert forall|j: int| name.len() - ext.len() <= j < name.len() implies other_than('.')(
        #[trigger] name[j],
    ) by {
        assert(name[j] == ext[j - stem.len() - 1]);
        assert(ext.contains(name[j]));
    }
    assert(name[name.len() - ext.len() - 1] == '.');
    lemma_suffix_len_is(name, other_than('.'), ext.len() as int);
    assert(name.skip(name.len() - ext.len()) =~= ext);
    assert(name != seq!['.', '.']) by {
        if name == seq!['.', '.'] {
            assert(name.len() == 2);
        }
    }
}

/// A name that ends in a dot and a text without dots or slashes has that
/// text as its extension, provided the name does not end in a slash before
/// the dot.
pub proof fn lemma_extension_of_join(stem: Seq<char>, ext: Seq<char>)
    requires
        stem.len() > 0,
        stem.last() != '/',
        ext.len() > 0,
        !ext.contains('.'),
        !ext.contains('/'),
    ensures
        extension(stem + seq!['.'] + ext) == Some(ext),
{
    let tail = seq!['.'] + ext;
    let name = stem + tail;
    assert(name =~= stem + seq!['.'] + ext);
    assert forall|j: int| 0 <= j < tail.len() implies other_than('/')(#[trigger] tail[j]) by {
        if j > 0 {
            assert(tail[j] == ext[j - 1]);
            assert(ext.contains(tail[j]));
        }
    }
    lemma_suffix_len_join(stem, tail, other_than('/'));
    lemma_suffix_len(stem, other_than('/'));
    let base = last_component(stem);
    assert(base.len() > 0);
    assert(last_component(name) =~= base + seq!['.'] + ext);
    lemma_component_extension_of_join(base, ext);
}

/// No line holds a line feed.
pub proof fn lemma_lines_have_no_line_feed(s: Seq<char>, i: int)
    requires
        0 <= i < lines(s).len(),
    ensures
        !lines(s)[i].contains('\n'),
    decreases s.len(),
{
    let n = index_of(s, '\n') as int;
    lemma_prefix_len(s, other_than('\n'));
    if n >= s.len() {
        if s.contains('\n') {
            let j = choose|j: int| 0 <= j < s.len() && s[j] == '\n';
            assert(other_than('\n')(s[j]));
        }
    } else if i == 0 {
        let line = chomp(s.take(n));
        if line.contains('\n') {
            let j = choose|j: int| 0 <= j < line.len() && line[j] == '\n';
            assert(line[j] == s[j]);
            assert(other_than('\n')(s[j]));
        }
    } else {
        lemma_lines_have_no_line_feed(s.skip(n + 1), i - 1);
    }
}

/// No word holds whitespace.
pub proof fn lemma_word_has_no_whitespace(s: Seq<char>, k: nat)
    ensures
        forall|i: int| 0 <= i < word(s, k).len() ==> !is_whitespace(#[trigger] word(s, k)[i]),
    decreases k,
{
    let t = s.skip(leading_whitespace(s) as int);
    let n = leading_word(t) as int;
    lemma_prefix_len(t, |x: char| !is_whitespace(x));
    if k == 0 {
        assert forall|i: int| 0 <= i < word(s, k).len() implies !is_whitespace(
            #[trigger] word(s, k)[i],
        ) by {
            assert(word(s, k)[i] == t[i]);
        }
    } else {
        lemma_word_has_no_whitespace(t.skip(n), (k - 1) as nat);
        assert(word(s, k) == word(t.skip(n), (k - 1) as nat));
    }
}

} // verus!
