//! Character-level string helpers and the path grouping used by the
//! sub-directory timeline.

use vstd::prelude::*;

verus! {

/// The characters of `s`, in order. Wraps `str::chars` collected into a `Vec`.
#[verifier::external_body]
pub(crate) fn chars_of(s: &str) -> (res: Vec<char>)
    ensures
        res@ == s@,
{
    s.chars().collect()
}

/// Appends one character. Wraps `String::push`, which appends `c` at the end.
#[verifier::external_body]
pub(crate) fn push_char(s: &mut String, c: char)
    ensures
        final(s)@ == old(s)@.push(c),
{
    s.push(c)
}

/// The string made of the given characters, in order.
pub fn string_from_chars(cs: &[char]) -> (res: String)
    ensures
        res@ == cs@,
{
    let mut out = String::new();
    let mut i: usize = 0;
    while i < cs.len()
        invariant
            0 <= i <= cs@.len(),
            out@ == cs@.take(i as int),
        decreases cs@.len() - i,
    {
        push_char(&mut out, cs[i]);
        assert(cs@.take(i + 1) =~= cs@.take(i as int).push(cs@[i as int]));
        i = i + 1;
    }
    assert(cs@.take(cs@.len() as int) =~= cs@);
    out
}

/// What `str::to_lowercase` returns for a string, by its characters.
pub uninterp spec fn lowercase(s: Seq<char>) -> Seq<char>;

/// Wraps `str::to_lowercase`: Unicode lowercasing of the whole string. Its
/// result is named, not stated: nothing here says what the Unicode tables
/// map a character to.
#[verifier::external_body]
pub(crate) fn to_lowercase(s: &str) -> (res: String)
    ensures
        res@ == lowercase(s@),
{
    s.to_lowercase()
}

/// Whether two character sequences are equal, element by element.
pub fn chars_eq(a: &[char], b: &[char]) -> (res: bool)
    ensures
        res == (a@ == b@),
{
    if a.len() != b.len() {
        return false;
    }
    let mut i: usize = 0;
    while i < a.len()
        invariant
            a.len() == b.len(),
            0 <= i <= a.len(),
            forall|k: int| 0 <= k < i ==> a@[k] == b@[k],
        decreases a.len() - i,
    {
        if a[i] != b[i] {
            return false;
        }
        i = i + 1;
    }
    assert(a@ =~= b@);
    true
}

/// Whether the string `s` equals the string `t`.
pub fn str_eq(s: &str, t: &str) -> (res: bool)
    ensures
        res == (s@ == t@),
{
    let a = chars_of(s);
    let b = chars_of(t);
    chars_eq(a.as_slice(), b.as_slice())
}

/// Whether `s` ends with `suffix`.
pub open spec fn has_suffix(s: Seq<char>, suffix: Seq<char>) -> bool {
    suffix.len() <= s.len() && s.subrange(s.len() - suffix.len(), s.len() as int) == suffix
}

/// Whether the string `s` ends with `suffix`, as `str::ends_with` answers.
pub fn ends_with(s: &str, suffix: &str) -> (res: bool)
    ensures
        res == has_suffix(s@, suffix@),
{
    let a = chars_of(s);
    let b = chars_of(suffix);
    if b.len() > a.len() {
        return false;
    }
    let off = a.len() - b.len();
    let mut i: usize = 0;
    while i < b.len()
        invariant
            a@ == s@,
            b@ == suffix@,
            off + b.len() == a.len(),
            0 <= i <= b.len(),
            forall|k: int| 0 <= k < i ==> a@[off + k] == b@[k],
        decreases b.len() - i,
    {
        if a[off + i] != b[i] {
            proof {
                let sub = a@.subrange(off as int, a@.len() as int);
                assert(sub[i as int] == a@[off + i]);
                assert(sub != b@);
            }
            return false;
        }
        i = i + 1;
    }
    assert(a@.subrange(off as int, a@.len() as int) =~= b@);
    true
}

/// `s` with every leading `"./"` removed, as `trim_start_matches("./")` does.
pub open spec fn strip_dot_slash(s: Seq<char>) -> Seq<char>
    decreases s.len(),
{
    if s.len() >= 2 && s[0] == '.' && s[1] == '/' {
        strip_dot_slash(s.skip(2))
    } else {
        s
    }
}

/// `s` with every trailing `'/'` removed, as `trim_end_matches("/")` does.
pub open spec fn trim_end_slashes(s: Seq<char>) -> Seq<char>
    decreases s.len(),
{
    if s.len() > 0 && s.last() == '/' {
        trim_end_slashes(s.drop_last())
    } else {
        s
    }
}

/// The part of `s` made of its first `k` `'/'`-separated segments: all of
/// `s` before its `k`-th `'/'`, or `s` itself when it has fewer.
pub open spec fn first_segments(s: Seq<char>, k: nat) -> Seq<char>
    decreases s.len(),
{
    if k == 0 || s.len() == 0 {
        Seq::empty()
    } else if s[0] == '/' {
        if k == 1 {
            Seq::empty()
        } else {
            seq!['/'] + first_segments(s.skip(1), (k - 1) as nat)
        }
    } else {
        seq![s[0]] + first_segments(s.skip(1), k)
    }
}

/// The directory that a file path is grouped under at a given depth: the
/// first `depth` segments of the path (all of them for a negative depth,
/// which becomes a huge `usize`), without a leading `"./"`, without
/// trailing slashes, behind one leading `'/'`.
pub open spec fn spec_cut_path(path: Seq<char>, depth: int) -> Seq<char> {
    let body = strip_dot_slash(path);
    let kept = if depth < 0 { body } else { first_segments(body, depth as nat) };
    seq!['/'] + trim_end_slashes(kept)
}

proof fn lemma_strip_step(s: Seq<char>, i: int)
    requires
        0 <= i <= s.len(),
        i + 2 <= s.len(),
        s[i] == '.',
        s[i + 1] == '/',
    ensures
        strip_dot_slash(s.skip(i)) == strip_dot_slash(s.skip(i + 2)),
{
    assert(s.skip(i).skip(2) =~= s.skip(i + 2));
}

proof fn lemma_segments_step(s: Seq<char>, j: int, k: nat)
    requires
        0 <= j < s.len(),
        k > 0,
    ensures
        first_segments(s.skip(j), k) == (if s[j] == '/' {
            if k == 1 {
                Seq::<char>::empty()
            } else {
                seq!['/'] + first_segments(s.skip(j + 1), (k - 1) as nat)
            }
        } else {
            seq![s[j]] + first_segments(s.skip(j + 1), k)
        }),
{
    assert(s.skip(j).skip(1) =~= s.skip(j + 1));
}

proof fn lemma_trim_prefix(s: Seq<char>, m: int)
    requires
        0 <= m <= s.len(),
        forall|k: int| m <= k < s.len() ==> s[k] == '/',
    ensures
        trim_end_slashes(s) == trim_end_slashes(s.take(m)),
    decreases s.len() - m,
{
    if m < s.len() {
        assert(s.drop_last() =~= s.take(s.len() - 1));
        lemma_trim_prefix(s.drop_last(), m);
        assert(s.drop_last().take(m) =~= s.take(m));
    } else {
        assert(s.take(m) =~= s);
    }
}

proof fn lemma_segments_prefix(s: Seq<char>, k1: nat, k2: nat)
    requires
        k1 <= k2,
    ensures
        first_segments(s, k1).is_prefix_of(first_segments(s, k2)),
    decreases s.len(),
{
    if k1 == 0 || s.len() == 0 {
    } else if s[0] == '/' {
        if k1 > 1 {
            lemma_segments_prefix(s.skip(1), (k1 - 1) as nat, (k2 - 1) as nat);
            let a = first_segments(s.skip(1), (k1 - 1) as nat);
            let b = first_segments(s.skip(1), (k2 - 1) as nat);
            assert((seq!['/'] + b).subrange(0, a.len() + 1int) =~= seq!['/'] + b.subrange(0, a.len() as int));
        }
    } else {
        lemma_segments_prefix(s.skip(1), k1, k2);
        let a = first_segments(s.skip(1), k1);
        let b = first_segments(s.skip(1), k2);
        assert((seq![s[0]] + b).subrange(0, a.len() + 1int) =~= seq![s[0]] + b.subrange(0, a.len() as int));
    }
}

proof fn lemma_trim_shape(s: Seq<char>)
    ensures
        trim_end_slashes(s).len() <= s.len(),
        trim_end_slashes(s) =~= s.take(trim_end_slashes(s).len() as int),
        forall|k: int| trim_end_slashes(s).len() <= k < s.len() ==> s[k] == '/',
        trim_end_slashes(s).len() > 0 ==> s[trim_end_slashes(s).len() - 1] != '/',
    decreases s.len(),
{
    if s.len() > 0 && s.last() == '/' {
        lemma_trim_shape(s.drop_last());
        let t = trim_end_slashes(s.drop_last());
        assert forall|k: int| t.len() <= k < s.len() implies s[k] == '/' by {
            if k < s.len() - 1 {
                assert(s.drop_last()[k] == s[k]);
            }
        }
        assert(s.drop_last().take(t.len() as int) =~= s.take(t.len() as int));
    } else {
        assert(s.take(s.len() as int) =~= s);
    }
}

proof fn lemma_trim_prefix_of(a: Seq<char>, b: Seq<char>)
    requires
        a.is_prefix_of(b),
    ensures
        trim_end_slashes(a).is_prefix_of(trim_end_slashes(b)),
{
    lemma_trim_shape(a);
    lemma_trim_shape(b);
    let ma = trim_end_slashes(a).len() as int;
    let mb = trim_end_slashes(b).len() as int;
    if mb < ma {
        assert(a[ma - 1] == b.subrange(0, a.len() as int)[ma - 1]);
        assert(b[ma - 1] == '/');
    }
    assert(trim_end_slashes(a) =~= trim_end_slashes(b).subrange(0, ma)) by {
        assert forall|k: int| 0 <= k < ma implies trim_end_slashes(a)[k] == trim_end_slashes(b).subrange(0, ma)[k] by {
            assert(a[k] == b.subrange(0, a.len() as int)[k]);
        }
    }
}

/// Grouping a path at a smaller depth gives a prefix of grouping it at a
/// larger one; every grouping starts with one `'/'` and, unless it is the
/// root `"/"` alone, does not end with one; and depth 0 gives the root.
pub proof fn law_cut_path_prefix(path: Seq<char>, d1: int, d2: int)
    requires
        0 <= d1 <= d2,
    ensures
        spec_cut_path(path, d1).is_prefix_of(spec_cut_path(path, d2)),
        spec_cut_path(path, d1).len() >= 1 && spec_cut_path(path, d1)[0] == '/',
        spec_cut_path(path, d1) == seq!['/'] || spec_cut_path(path, d1).last() != '/',
        spec_cut_path(path, 0) == seq!['/'],
{
    let body = strip_dot_slash(path);
    let a = first_segments(body, d1 as nat);
    let b = first_segments(body, d2 as nat);
    lemma_segments_prefix(body, d1 as nat, d2 as nat);
    lemma_trim_prefix_of(a, b);
    lemma_trim_shape(a);
    let ta = trim_end_slashes(a);
    let tb = trim_end_slashes(b);
    assert((seq!['/'] + tb).subrange(0, ta.len() + 1int) =~= seq!['/'] + tb.subrange(0, ta.len() as int));
    if ta.len() > 0 {
        assert((seq!['/'] + ta).last() == ta[ta.len() - 1]);
        assert(ta[ta.len() - 1] == a[ta.len() - 1]);
    } else {
        assert(seq!['/'] + ta =~= seq!['/']);
    }
    assert(first_segments(body, 0) == Seq::<char>::empty());
    assert(seq!['/'] + trim_end_slashes(Seq::<char>::empty()) =~= seq!['/']);
}

/// The directory under which `path` is counted at the given depth.
pub fn cut_path(path: &str, depth: i32) -> (res: String)
    ensures
        res@ == spec_cut_path(path@, depth as int),
{
    let cs = chars_of(path);
    let n = cs.len();
    // drop every leading "./"
    let mut i: usize = 0;
    assert(cs@ =~= cs@.skip(0));
    while n - i >= 2 && cs[i] == '.' && cs[i + 1] == '/'
        invariant
            n == cs@.len(),
            0 <= i <= n,
            strip_dot_slash(cs@) == strip_dot_slash(cs@.skip(i as int)),
        decreases n - i,
    {
        proof {
            lemma_strip_step(cs@, i as int);
        }
        i = i + 2;
    }
    proof {
        reveal_with_fuel(strip_dot_slash, 2);
    }
    let ghost body = cs@.skip(i as int);
    assert(strip_dot_slash(cs@) == body);
    // keep the first `depth` segments
    let mut kept: Vec<char> = Vec::new();
    let mut j: usize = i;
    if depth < 0 {
        while j < n
            invariant
                n == cs@.len(),
                i <= j <= n,
                kept@ =~= cs@.subrange(i as int, j as int),
            decreases n - j,
        {
            kept.push(cs[j]);
            j = j + 1;
        }
        assert(kept@ =~= body);
    } else {
        let mut k: u32 = depth as u32;
        let ghost full: nat = depth as nat;
        while j < n && k > 0 && !(cs[j] == '/' && k == 1)
            invariant
                n == cs@.len(),
                i <= j <= n,
                kept@ + first_segments(cs@.skip(j as int), k as nat) == first_segments(body, full),
            decreases n - j,
        {
            proof {
                lemma_segments_step(cs@, j as int, k as nat);
            }
            if cs[j] == '/' {
                kept.push('/');
                k = k - 1;
            } else {
                kept.push(cs[j]);
            }
            proof {
                assert(kept@ + first_segments(cs@.skip(j + 1), k as nat) =~= first_segments(body, full));
            }
            j = j + 1;
        }
        proof {
            if j < n && k > 0 {
                lemma_segments_step(cs@, j as int, k as nat);
            }
            assert(first_segments(cs@.skip(j as int), k as nat) =~= Seq::<char>::empty());
            assert(kept@ =~= first_segments(body, full));
        }
    }
    // drop trailing slashes
    let mut m: usize = kept.len();
    assert(kept@ =~= kept@.take(m as int));
    while m > 0 && kept[m - 1] == '/'
        invariant
            0 <= m <= kept@.len(),
            trim_end_slashes(kept@) == trim_end_slashes(kept@.take(m as int)),
        decreases m,
    {
        proof {
            assert(kept@.take(m as int).drop_last() =~= kept@.take(m - 1));
        }
        m = m - 1;
    }
    proof {
        if m > 0 {
            assert(kept@.take(m as int).last() != '/');
        }
        assert(trim_end_slashes(kept@.take(m as int)) == kept@.take(m as int));
    }
    let mut out: Vec<char> = Vec::new();
    out.push('/');
    let mut q: usize = 0;
    while q < m
        invariant
            0 <= q <= m <= kept@.len(),
            out@ =~= seq!['/'] + kept@.take(q as int),
        decreases m - q,
    {
        out.push(kept[q]);
        q = q + 1;
    }
    string_from_chars(out.as_slice())
}

/// The pieces of `s` between the occurrences of `c`, as `str::split` gives
/// them: one more piece than there are separators, empty pieces included.
pub open spec fn split_on(s: Seq<char>, c: char) -> Seq<Seq<char>>
    decreases s.len(),
{
    if s.len() == 0 {
        seq![Seq::empty()]
    } else {
        let before = split_on(s.drop_last(), c);
        if s.last() == c {
            before.push(Seq::empty())
        } else {
            before.update(before.len() - 1, before.last().push(s.last()))
        }
    }
}

proof fn lemma_split_nonempty(s: Seq<char>, c: char)
    ensures
        split_on(s, c).len() >= 1,
    decreases s.len(),
{
    if s.len() > 0 {
        lemma_split_nonempty(s.drop_last(), c);
    }
}

/// The pieces of `s` between the commas in it.
pub fn split_commas(s: &str) -> (res: Vec<String>)
    ensures
        res@.map_values(|p: String| p@) == split_on(s@, ','),
{
    let cs = chars_of(s);
    let mut pieces: Vec<String> = Vec::new();
    let mut current: Vec<char> = Vec::new();
    let mut i: usize = 0;
    assert(cs@.take(0) =~= Seq::<char>::empty());
    while i < cs.len()
        invariant
            0 <= i <= cs@.len(),
            pieces@.map_values(|p: String| p@).push(current@) == split_on(cs@.take(i as int), ','),
        decreases cs@.len() - i,
    {
        let ghost before = split_on(cs@.take(i as int), ',');
        proof {
            assert(cs@.take(i + 1).drop_last() =~= cs@.take(i as int));
            lemma_split_nonempty(cs@.take(i as int), ',');
        }
        if cs[i] == ',' {
            let piece = string_from_chars(current.as_slice());
            pieces.push(piece);
            current = Vec::new();
            proof {
                assert(pieces@.map_values(|p: String| p@) =~= before);
                assert(pieces@.map_values(|p: String| p@).push(current@) =~= before.push(Seq::empty()));
            }
        } else {
            current.push(cs[i]);
            proof {
                assert(pieces@.map_values(|p: String| p@).push(current@) =~= before.update(
                    before.len() - 1,
                    before.last().push(cs@[i as int]),
                ));
            }
        }
        i = i + 1;
    }
    let piece = string_from_chars(current.as_slice());
    pieces.push(piece);
    proof {
        assert(cs@.take(i as int) =~= cs@);
        assert(pieces@.map_values(|p: String| p@) =~= split_on(cs@, ','));
    }
    pieces
}

/// Whether every character of `s` is an ASCII digit.
pub open spec fn all_digits(s: Seq<char>) -> bool {
    forall|i: int| 0 <= i < s.len() ==> '0' <= #[trigger] s[i] <= '9'
}

/// The number that a string of ASCII digits writes in decimal.
pub open spec fn digits_value(s: Seq<char>) -> int
    decreases s.len(),
{
    if s.len() == 0 {
        0
    } else {
        10 * digits_value(s.drop_last()) + (s.last() as int - '0' as int)
    }
}

/// What `<i32 as FromStr>::from_str` gives: an optional `+` or `-` sign
/// followed by at least one ASCII digit, within the range of `i32`.
pub open spec fn spec_parse_i32(s: Seq<char>) -> Option<int> {
    if s.len() > 0 && (s[0] == '+' || s[0] == '-') {
        let d = s.skip(1);
        if d.len() > 0 && all_digits(d) {
            let v = if s[0] == '-' {
                -digits_value(d)
            } else {
                digits_value(d)
            };
            if i32::MIN <= v <= i32::MAX {
                Some(v)
            } else {
                None
            }
        } else {
            None
        }
    } else if s.len() > 0 && all_digits(s) {
        if digits_value(s) <= i32::MAX {
            Some(digits_value(s))
        } else {
            None
        }
    } else {
        None
    }
}

proof fn lemma_digits_nonneg(s: Seq<char>)
    requires
        all_digits(s),
    ensures
        digits_value(s) >= 0,
    decreases s.len(),
{
    if s.len() > 0 {
        assert(all_digits(s.drop_last()));
        lemma_digits_nonneg(s.drop_last());
    }
}

proof fn lemma_digits_prefix(s: Seq<char>, k: int)
    requires
        all_digits(s),
        0 <= k <= s.len(),
    ensures
        0 <= digits_value(s.take(k)) <= digits_value(s),
    decreases s.len() - k,
{
    assert(all_digits(s.take(k)));
    lemma_digits_nonneg(s.take(k));
    if k < s.len() {
        lemma_digits_prefix(s, k + 1);
        assert(s.take(k + 1).drop_last() =~= s.take(k));
        assert(s.take(k + 1).last() == s[k]);
    } else {
        assert(s.take(k) =~= s);
    }
}

/// The `i32` that `s` writes, as `str::parse::<i32>` reads it.
pub fn parse_i32(s: &str) -> (res: Option<i32>)
    ensures
        match res {
            Some(v) => spec_parse_i32(s@) == Some(v as int),
            None => spec_parse_i32(s@) is None,
        },
{
    let cs = chars_of(s);
    let n = cs.len();
    if n == 0 {
        return None;
    }
    let negative = cs[0] == '-';
    let first: usize = if cs[0] == '+' || cs[0] == '-' {
        1
    } else {
        0
    };
    if first == n {
        return None;
    }
    let ghost d = cs@.skip(first as int);
    assert(cs@.skip(0) =~= cs@);
    let mut i: usize = first;
    while i < n
        invariant
            cs@ == s@,
            n > 0,
            first == 0 || first == 1,
            first == 0 ==> !(cs@[0] == '+' || cs@[0] == '-'),
            first == 1 ==> (cs@[0] == '+' || cs@[0] == '-'),
            negative == (cs@[0] == '-'),
            cs@.skip(0) == cs@,
            n == cs@.len(),
            d == cs@.skip(first as int),
            first <= i <= n,
            forall|k: int| first <= k < i ==> '0' <= #[trigger] cs@[k] <= '9',
        decreases n - i,
    {
        if cs[i] < '0' || cs[i] > '9' {
            proof {
                assert(d[i - first] == cs@[i as int]);
            }
            return None;
        }
        i = i + 1;
    }
    proof {
        assert forall|k: int| 0 <= k < d.len() implies '0' <= #[trigger] d[k] <= '9' by {
            assert(d[k] == cs@[k + first]);
        }
        assert(d =~= cs@.subrange(first as int, n as int));
    }
    // the magnitude, stopped as soon as it leaves the range of i32
    let mut v: i64 = 0;
    let mut j: usize = first;
    assert(d.take(0) =~= Seq::<char>::empty());
    while j < n
        invariant
            cs@ == s@,
            n > 0,
            first == 0 || first == 1,
            first == 0 ==> !(cs@[0] == '+' || cs@[0] == '-'),
            first == 1 ==> (cs@[0] == '+' || cs@[0] == '-'),
            negative == (cs@[0] == '-'),
            cs@.skip(0) == cs@,
            n == cs@.len(),
            first <= j <= n,
            d == cs@.skip(first as int),
            all_digits(d),
            0 <= v <= 2147483648,
            v == digits_value(d.take(j - first)),
        decreases n - j,
    {
        proof {
            assert(d[j - first] == cs@[j as int]);
            assert(d.take(j - first + 1).drop_last() =~= d.take(j - first));
            assert(d.take(j - first + 1).last() == cs@[j as int]);
        }
        let digit = (cs[j] as u32 - '0' as u32) as i64;
        let next = 10 * v + digit;
        if next > 2147483648 {
            proof {
                lemma_digits_prefix(d, j - first + 1);
            }
            return None;
        }
        v = next;
        j = j + 1;
    }
    proof {
        assert(d.take(j - first) =~= d);
        assert(cs@.skip(0) =~= cs@);
    }
    if negative {
        Some((-v) as i32)
    } else if v > 2147483647 {
        None
    } else {
        Some(v as i32)
    }
}

/// Whether `t` occurs in `s` as a run of consecutive characters.
pub open spec fn has_substring(s: Seq<char>, t: Seq<char>) -> bool {
    exists|i: int| 0 <= i <= s.len() - t.len() && #[trigger] s.subrange(i, i + t.len()) == t
}

/// Whether `needle` occurs in `s`, as `str::contains` answers.
pub fn contains_str(s: &str, needle: &str) -> (res: bool)
    ensures
        res == has_substring(s@, needle@),
{
    let a = chars_of(s);
    let b = chars_of(needle);
    if b.len() > a.len() {
        return false;
    }
    if b.len() == 0 {
        assert(s@.subrange(0int, 0int + needle@.len()) =~= needle@);
        return true;
    }
    let last = a.len() - b.len();
    let mut i: usize = 0;
    while i <= last
        invariant
            a@ == s@,
            b@ == needle@,
            b@.len() > 0,
            last + b.len() == a.len(),
            last + b@.len() == a@.len(),
            0 <= i <= last + 1,
            forall|k: int| 0 <= k < i ==> #[trigger] a@.subrange(k, k + b@.len()) != b@,
        decreases last + 1 - i,
    {
        let mut j: usize = 0;
        while j < b.len() && a[i + j] == b[j]
            invariant
                last + b.len() == a.len(),
                last + b@.len() == a@.len(),
                0 <= i <= last,
                0 <= j <= b@.len(),
                forall|q: int| 0 <= q < j ==> a@[i + q] == b@[q],
            decreases b@.len() - j,
        {
            j = j + 1;
        }
        if j == b.len() {
            assert(a@.subrange(i as int, i + b@.len()) =~= b@);
            return true;
        }
        assert(a@.subrange(i as int, i + b@.len())[j as int] != b@[j as int]);
        i = i + 1;
    }
    false
}

/// Whether `a` comes before `b` in the order of `String`: by the first
/// character where they differ (by code point), a proper prefix first.
pub open spec fn text_lt(a: Seq<char>, b: Seq<char>) -> bool
    decreases a.len(),
{
    if b.len() == 0 {
        false
    } else if a.len() == 0 {
        true
    } else if (a[0] as int) < (b[0] as int) {
        true
    } else if a[0] == b[0] {
        text_lt(a.skip(1), b.skip(1))
    } else {
        false
    }
}

proof fn lemma_first_split(a: Seq<char>, b: Seq<char>)
    requires
        a.len() > 0,
        b.len() > 0,
        a[0] == b[0],
        a.skip(1) == b.skip(1),
    ensures
        a == b,
{
    assert(a =~= seq![a[0]] + a.skip(1));
    assert(b =~= seq![b[0]] + b.skip(1));
}

/// The order of texts is strict and total: no text comes before itself,
/// and of two different texts exactly one comes first.
pub proof fn lemma_text_lt_total(a: Seq<char>, b: Seq<char>)
    ensures
        !text_lt(a, a),
        a != b ==> (text_lt(a, b) <==> !text_lt(b, a)),
        a == b ==> !text_lt(a, b),
    decreases a.len(),
{
    if a.len() > 0 {
        lemma_text_lt_total(a.skip(1), a.skip(1));
        if b.len() > 0 {
            lemma_text_lt_total(a.skip(1), b.skip(1));
            assert(a[0] != b[0] ==> (a[0] as int) != (b[0] as int));
            if a[0] == b[0] && a != b {
                if a.skip(1) == b.skip(1) {
                    lemma_first_split(a, b);
                }
            }
        }
    } else if b.len() > 0 {
    } else {
        assert(a =~= b);
    }
}

/// The order of texts is transitive.
pub proof fn lemma_text_lt_trans(a: Seq<char>, b: Seq<char>, c: Seq<char>)
    requires
        text_lt(a, b),
        text_lt(b, c),
    ensures
        text_lt(a, c),
    decreases a.len(),
{
    if a.len() > 0 && b.len() > 0 && c.len() > 0 && a[0] == b[0] && b[0] == c[0] {
        lemma_text_lt_trans(a.skip(1), b.skip(1), c.skip(1));
    }
}

/// Whether `a` comes before `b` in the order of `String`.
pub fn text_less(a: &str, b: &str) -> (res: bool)
    ensures
        res == text_lt(a@, b@),
{
    let x = chars_of(a);
    let y = chars_of(b);
    let mut i: usize = 0;
    assert(x@.skip(0) =~= x@);
    assert(y@.skip(0) =~= y@);
    while i < x.len() && i < y.len() && x[i] == y[i]
        invariant
            0 <= i <= x@.len(),
            i <= y@.len(),
            text_lt(x@, y@) == text_lt(x@.skip(i as int), y@.skip(i as int)),
        decreases x@.len() - i,
    {
        proof {
            assert(x@.skip(i as int).skip(1) =~= x@.skip(i + 1));
            assert(y@.skip(i as int).skip(1) =~= y@.skip(i + 1));
        }
        i = i + 1;
    }
    if i == y.len() {
        false
    } else if i == x.len() {
        true
    } else {
        proof {
            assert(x@.skip(i as int)[0] == x@[i as int]);
            assert(y@.skip(i as int)[0] == y@[i as int]);
        }
        x[i] < y[i]
    }
}

} // verus!
