//! Text primitives over character sequences.
use vstd::prelude::*;

verus! {

/// The characters of `s` as a vector.
pub fn chars_of(s: &str) -> (r: Vec<char>)
    ensures
        r@ == s@,
{
    let n = s.unicode_len();
    let mut out: Vec<char> = Vec::new();
    let mut i: usize = 0;
    while i < n
        invariant
            n == s@.len(),
            i <= n,
            out@ == s@.subrange(0, i as int),
        decreases n - i,
    {
        out.push(s.get_char(i));
        i = i + 1;
        assert(out@ =~= s@.subrange(0, i as int));
    }
    assert(out@ =~= s@);
    out
}

/// Whether `p` occurs in `s` starting at position `i`.
pub open spec fn occurs_at(s: Seq<char>, p: Seq<char>, i: int) -> bool {
    0 <= i && i + p.len() <= s.len() && s.subrange(i, i + p.len()) == p
}

/// Whether `p` occurs anywhere in `s`.
pub open spec fn contains_seq(s: Seq<char>, p: Seq<char>) -> bool {
    exists|i: int| occurs_at(s, p, i)
}

fn matches_at(s: &Vec<char>, p: &Vec<char>, i: usize) -> (r: bool)
    requires
        i + p@.len() <= s@.len(),
    ensures
        r == occurs_at(s@, p@, i as int),
{
    let n = s.len();
    let mut j: usize = 0;
    while j < p.len()
        invariant
            n == s@.len(),
            i + p@.len() <= s@.len(),
            j <= p@.len(),
            forall|k: int| 0 <= k < j ==> s@[i + k] == p@[k],
        decreases p@.len() - j,
    {
        if s[i + j] != p[j] {
            assert(s@.subrange(i as int, i + p@.len())[j as int] != p@[j as int]);
            return false;
        }
        j = j + 1;
    }
    assert(s@.subrange(i as int, i + p@.len()) =~= p@);
    true
}

/// Whether `pattern` occurs in `s`, as `str::contains` with a string pattern.
pub fn text_contains(s: &str, pattern: &str) -> (r: bool)
    ensures
        r == contains_seq(s@, pattern@),
{
    let sc = chars_of(s);
    let pc = chars_of(pattern);
    if pc.len() > sc.len() {
        return false;
    }
    let last = sc.len() - pc.len();
    let mut i: usize = 0;
    loop
        invariant
            sc@ == s@,
            pc@ == pattern@,
            last == sc@.len() - pc@.len(),
            i <= last,
            forall|k: int| 0 <= k < i ==> !occurs_at(s@, pattern@, k),
        decreases last - i,
    {
        if matches_at(&sc, &pc, i) {
            return true;
        }
        if i == last {
            assert forall|k: int| !occurs_at(s@, pattern@, k) by {
                if occurs_at(s@, pattern@, k) {
                    assert(k <= i);
                }
            }
            return false;
        }
        i = i + 1;
    }
}

/// Whether two texts hold the same characters.
pub fn text_eq(a: &str, b: &str) -> (r: bool)
    ensures
        r == (a@ == b@),
{
    let x = String::from_str(a);
    let y = String::from_str(b);
    x == y
}


// ----- lines -----

/// Index of the first line feed in `t`, or the length of `t` when it has none.
pub open spec fn newline_pos(t: Seq<char>) -> int
    decreases t.len(),
{
    if t.len() == 0 {
        0
    } else if t[0] == '\n' {
        0
    } else {
        1 + newline_pos(t.drop_first())
    }
}

/// A line ended by a line feed loses one carriage return before it.
pub open spec fn strip_cr(line: Seq<char>) -> Seq<char> {
    if line.len() > 0 && line.last() == '\r' {
        line.drop_last()
    } else {
        line
    }
}

/// The lines of `t`, split as `str::lines` splits them: at `\n` or `\r\n`,
/// with no empty line after a final line ending.
pub open spec fn lines_of(t: Seq<char>) -> Seq<Seq<char>>
    decreases t.len(),
{
    if t.len() == 0 {
        seq![]
    } else {
        let k = newline_pos(t);
        if k < 0 || k >= t.len() {
            seq![t]
        } else {
            seq![strip_cr(t.take(k))] + lines_of(t.skip(k + 1))
        }
    }
}

proof fn lemma_newline_pos_is(t: Seq<char>, m: int)
    requires
        0 <= m <= t.len(),
        forall|i: int| 0 <= i < m ==> t[i] != '\n',
        m < t.len() ==> t[m] == '\n',
    ensures
        newline_pos(t) == m,
    decreases t.len(),
{
    if t.len() > 0 && t[0] != '\n' {
        let u = t.drop_first();
        assert forall|i: int| 0 <= i < m - 1 implies u[i] != '\n' by {
            assert(u[i] == t[i + 1]);
        }
        if m - 1 < u.len() {
            assert(u[m - 1] == t[m]);
        }
        lemma_newline_pos_is(u, m - 1);
    }
}

/// Position of the first line feed at or after `from`, or the length.
fn find_newline(c: &Vec<char>, from: usize) -> (e: usize)
    requires
        from <= c@.len(),
    ensures
        from <= e <= c@.len(),
        e == from + newline_pos(c@.skip(from as int)),
{
    let n = c.len();
    let mut e = from;
    while e < n && c[e] != '\n'
        invariant
            n == c@.len(),
            from <= e <= n,
            forall|i: int| from <= i < e ==> c@[i] != '\n',
        decreases n - e,
    {
        e = e + 1;
    }
    let ghost t = c@.skip(from as int);
    assert forall|i: int| 0 <= i < e - from implies t[i] != '\n' by {
        assert(t[i] == c@[from + i]);
    }
    proof {
        if e < n {
            assert(t[e - from] == c@[e as int]);
        }
        lemma_newline_pos_is(t, e - from);
    }
    e
}

/// The line of `s` with index `k` (counting from zero), as
/// `s.lines().nth(k)` yields it.
pub fn line_at(s: &str, k: usize) -> (r: Option<String>)
    ensures
        r is Some <==> k < lines_of(s@).len(),
        r is Some ==> r->0@ == lines_of(s@)[k as int],
{
    let c = chars_of(s);
    let n = c.len();
    let mut cur: usize = 0;
    let mut idx: usize = 0;
    assert(s@.skip(0) =~= s@);
    assert(lines_of(s@).skip(0) =~= lines_of(s@));
    loop
        invariant
            c@ == s@,
            n == s@.len(),
            cur <= n,
            idx <= k,
            idx <= lines_of(s@).len(),
            lines_of(s@).skip(idx as int) == lines_of(s@.skip(cur as int)),
        decreases n - cur,
    {
        let ghost t = s@.skip(cur as int);
        if cur == n {
            assert(t.len() == 0);
            assert(lines_of(s@).skip(idx as int).len() == 0);
            return None;
        }
        let e = find_newline(&c, cur);
        let ghost rest = lines_of(t);
        assert(rest.len() > 0);
        assert(lines_of(s@).skip(idx as int)[0] == lines_of(s@)[idx as int]);
        if idx == k {
            let line: &str;
            if e < n && e > cur && c[e - 1] == '\r' {
                line = s.substring_char(cur, e - 1);
                assert(t.take(e - cur) =~= s@.subrange(cur as int, e as int));
                assert(line@ =~= strip_cr(t.take(e - cur)));
            } else {
                line = s.substring_char(cur, e);
                if e < n {
                    assert(t.take(e - cur) =~= s@.subrange(cur as int, e as int));
                    assert(line@ =~= strip_cr(t.take(e - cur)));
                } else {
                    assert(line@ =~= t);
                }
            }
            return Some(line.to_owned());
        }
        if e == n {
            assert(rest =~= seq![t]);
            assert(lines_of(s@).len() == idx + 1);
            return None;
        }
        assert(t.skip(e - cur + 1) =~= s@.skip(e + 1));
        assert(rest == seq![strip_cr(t.take(e - cur))] + lines_of(s@.skip(e + 1)));
        assert(lines_of(s@).skip(idx + 1) =~= rest.skip(1));
        assert(rest.skip(1) =~= lines_of(s@.skip(e + 1)));
        cur = e + 1;
        idx = idx + 1;
    }
}

// ----- decimal numbers -----

/// The decimal digit for `d` below ten.
pub open spec fn digit_char(d: nat) -> char {
    if d == 0 {
        '0'
    } else if d == 1 {
        '1'
    } else if d == 2 {
        '2'
    } else if d == 3 {
        '3'
    } else if d == 4 {
        '4'
    } else if d == 5 {
        '5'
    } else if d == 6 {
        '6'
    } else if d == 7 {
        '7'
    } else if d == 8 {
        '8'
    } else {
        '9'
    }
}

/// The decimal notation of `n`, without leading zeros.
pub open spec fn decimal(n: nat) -> Seq<char>
    decreases n,
{
    if n < 10 {
        seq![digit_char(n)]
    } else {
        decimal(n / 10).push(digit_char(n % 10))
    }
}

/// The decimal notation of `n` with zeros in front up to `width` characters.
pub open spec fn zero_padded(n: nat, width: nat) -> Seq<char> {
    let d = decimal(n);
    if d.len() >= width {
        d
    } else {
        Seq::new((width - d.len()) as nat, |i: int| '0') + d
    }
}

fn digit_str(d: u64) -> (r: &'static str)
    requires
        d < 10,
    ensures
        r@ == seq![digit_char(d as nat)],
{
    proof {
        reveal_strlit("0");
        reveal_strlit("1");
        reveal_strlit("2");
        reveal_strlit("3");
        reveal_strlit("4");
        reveal_strlit("5");
        reveal_strlit("6");
        reveal_strlit("7");
        reveal_strlit("8");
        reveal_strlit("9");
    }
    let r = if d == 0 {
        "0"
    } else if d == 1 {
        "1"
    } else if d == 2 {
        "2"
    } else if d == 3 {
        "3"
    } else if d == 4 {
        "4"
    } else if d == 5 {
        "5"
    } else if d == 6 {
        "6"
    } else if d == 7 {
        "7"
    } else if d == 8 {
        "8"
    } else {
        "9"
    };
    assert(r@ =~= seq![digit_char(d as nat)]);
    r
}

/// Appends the decimal notation of `n`.
pub fn push_decimal(out: &mut String, n: u64)
    ensures
        final(out)@ == old(out)@ + decimal(n as nat),
    decreases n,
{
    if n >= 10 {
        push_decimal(out, n / 10);
    }
    out.append(digit_str(n % 10));
    proof {
        if n >= 10 {
            assert(old(out)@ + decimal((n / 10) as nat) + seq![digit_char((n % 10) as nat)]
                =~= old(out)@ + decimal(n as nat));
        } else {
            assert(old(out)@ + seq![digit_char((n % 10) as nat)] =~= old(out)@ + decimal(
                n as nat,
            ));
        }
    }
}

fn decimal_len(n: u64) -> (r: u64)
    ensures
        r == decimal(n as nat).len(),
        1 <= r <= n as int + 1,
    decreases n,
{
    if n < 10 {
        1
    } else {
        let k = decimal_len(n / 10);
        k + 1
    }
}

/// Appends the decimal notation of `n` with zeros in front up to `width`
/// characters, as the format `{:0w}` writes a number that is not negative.
pub fn push_zero_padded(out: &mut String, n: u64, width: u64)
    ensures
        final(out)@ == old(out)@ + zero_padded(n as nat, width as nat),
{
    let len = decimal_len(n);
    let ghost start = old(out)@;
    if len < width {
        let zeros = width - len;
        let mut i: u64 = 0;
        while i < zeros
            invariant
                i <= zeros,
                out@ == start + Seq::new(i as nat, |j: int| '0'),
            decreases zeros - i,
        {
            out.append("0");
            proof {
                reveal_strlit("0");
            }
            i = i + 1;
            assert(out@ =~= start + Seq::new(i as nat, |j: int| '0'));
        }
    }
    push_decimal(out, n);
    assert(out@ =~= start + zero_padded(n as nat, width as nat));
}

// ----- joining and replacing -----

/// The views of a slice of strings.
pub open spec fn texts(v: Seq<String>) -> Seq<Seq<char>> {
    v.map_values(|t: String| t@)
}

/// The parts joined with `sep` between each two, as `slice::join` does.
pub open spec fn joined(parts: Seq<Seq<char>>, sep: Seq<char>) -> Seq<char>
    decreases parts.len(),
{
    if parts.len() == 0 {
        seq![]
    } else if parts.len() == 1 {
        parts[0]
    } else {
        joined(parts.drop_last(), sep) + sep + parts.last()
    }
}

/// Joins `parts` with `sep` between each two.
pub fn join_texts(parts: &[String], sep: &str) -> (r: String)
    ensures
        r@ == joined(texts(parts@), sep@),
{
    let mut out = String::new();
    let mut i: usize = 0;
    while i < parts.len()
        invariant
            i <= parts@.len(),
            out@ == joined(texts(parts@.subrange(0, i as int)), sep@),
        decreases parts@.len() - i,
    {
        let ghost before = texts(parts@.subrange(0, i as int));
        let ghost after = texts(parts@.subrange(0, i + 1));
        assert(after.drop_last() =~= before);
        if i > 0 {
            out.append(sep);
        }
        out.append(parts[i].as_str());
        i = i + 1;
        assert(out@ =~= joined(after, sep@));
    }
    assert(parts@.subrange(0, parts@.len() as int) =~= parts@);
    out
}

/// `s` with every occurrence of `pat` replaced by `rep`, scanning from the
/// left without overlap, as `str::replace` does for a pattern that is not
/// empty.
pub open spec fn replaced(s: Seq<char>, pat: Seq<char>, rep: Seq<char>) -> Seq<char>
    decreases s.len(),
{
    if pat.len() == 0 || s.len() < pat.len() {
        s
    } else if s.take(pat.len() as int) == pat {
        rep + replaced(s.skip(pat.len() as int), pat, rep)
    } else {
        seq![s[0]] + replaced(s.drop_first(), pat, rep)
    }
}

/// Replaces every occurrence of `pat` in `s` by `rep`.
pub fn replace_text(s: &str, pat: &str, rep: &str) -> (r: String)
    ensures
        r@ == replaced(s@, pat@, rep@),
{
    let c = chars_of(s);
    let p = chars_of(pat);
    let n = c.len();
    let m = p.len();
    if m == 0 || n < m {
        return s.to_owned();
    }
    let mut out = String::new();
    let mut i: usize = 0;
    assert(s@.skip(0) =~= s@);
    while i < n
        invariant
            c@ == s@,
            p@ == pat@,
            n == s@.len(),
            m == pat@.len(),
            0 < m <= n,
            i <= n,
            out@ + replaced(s@.skip(i as int), pat@, rep@) == replaced(s@, pat@, rep@),
        decreases n - i,
    {
        let ghost t = s@.skip(i as int);
        if i <= n - m && matches_at(&c, &p, i) {
            assert(t.take(m as int) =~= s@.subrange(i as int, i + m));
            assert(t.skip(m as int) =~= s@.skip(i + m));
            out.append(rep);
            i = i + m;
        } else {
            if i <= n - m {
                assert(t.take(m as int) =~= s@.subrange(i as int, i + m));
            } else {
                assert(t.len() < m);
                assert(replaced(t, pat@, rep@) == t);
                assert(replaced(t.drop_first(), pat@, rep@) == t.drop_first());
            }
            let one = s.substring_char(i, i + 1);
            assert(one@ =~= seq![t[0]]);
            assert(t.drop_first() =~= s@.skip(i + 1));
            out.append(one);
            i = i + 1;
            assert(out@ + replaced(s@.skip(i as int), pat@, rep@) =~= replaced(s@, pat@, rep@));
        }
    }
    assert(s@.skip(n as int) =~= Seq::<char>::empty());
    assert(out@ =~= replaced(s@, pat@, rep@));
    out
}

// ----- standard text functions -----

/// Whether a character has the Unicode `White_Space` property, as
/// `char::is_whitespace` tests it.
pub open spec fn is_white_space(c: char) -> bool {
    let u = c as u32;
    (9 <= u <= 13) || u == 0x20 || u == 0x85 || u == 0xA0 || u == 0x1680 || (0x2000 <= u
        <= 0x200A) || u == 0x2028 || u == 0x2029 || u == 0x202F || u == 0x205F || u == 0x3000
}

/// How many white-space characters a text starts with.
pub open spec fn leading_white_space(s: Seq<char>) -> int
    decreases s.len(),
{
    if s.len() == 0 {
        0
    } else if is_white_space(s[0]) {
        1 + leading_white_space(s.drop_first())
    } else {
        0
    }
}

/// How many white-space characters a text ends with.
pub open spec fn trailing_white_space(s: Seq<char>) -> int
    decreases s.len(),
{
    if s.len() == 0 {
        0
    } else if is_white_space(s.last()) {
        1 + trailing_white_space(s.drop_last())
    } else {
        0
    }
}

/// A text without its leading and trailing white space.
pub open spec fn trim_of(s: Seq<char>) -> Seq<char> {
    let t = s.skip(leading_white_space(s));
    t.take(t.len() - trailing_white_space(t))
}

/// Relies on `str::trim`: the text without its leading and trailing
/// characters of the Unicode `White_Space` property.
#[verifier::external_body]
pub(crate) fn trimmed<'a>(s: &'a str) -> (r: &'a str)
    ensures
        r@ == trim_of(s@),
{
    s.trim()
}

/// What `str::to_lowercase` returns for a text: a function of its characters
/// alone.
pub uninterp spec fn lower_of(s: Seq<char>) -> Seq<char>;

/// Relies on `str::to_lowercase`: the Unicode lower-case form of the text.
#[verifier::external_body]
pub(crate) fn lowercase(s: &str) -> (r: String)
    ensures
        r@ == lower_of(s@),
{
    s.to_lowercase()
}

// ----- searching and ordering -----

/// The position of the first occurrence of `p` in `s`, where there is one.
pub open spec fn first_occurrence(s: Seq<char>, p: Seq<char>) -> int {
    choose|i: int| occurs_at(s, p, i) && forall|j: int| 0 <= j < i ==> !occurs_at(s, p, j)
}

/// The position of the first occurrence of `pattern` in `s`, as `str::find`
/// gives it, counted in characters.
pub fn find_text(s: &str, pattern: &str) -> (r: Option<usize>)
    ensures
        r is Some <==> contains_seq(s@, pattern@),
        r is Some ==> r->0 == first_occurrence(s@, pattern@),
        r is Some ==> occurs_at(s@, pattern@, r->0 as int),
{
    let sc = chars_of(s);
    let pc = chars_of(pattern);
    if pc.len() > sc.len() {
        assert forall|k: int| !occurs_at(s@, pattern@, k) by {}
        return None;
    }
    let last = sc.len() - pc.len();
    let mut i: usize = 0;
    loop
        invariant
            sc@ == s@,
            pc@ == pattern@,
            last == sc@.len() - pc@.len(),
            i <= last,
            forall|k: int| 0 <= k < i ==> !occurs_at(s@, pattern@, k),
        decreases last - i,
    {
        if matches_at(&sc, &pc, i) {
            let ghost f = first_occurrence(s@, pattern@);
            assert(occurs_at(s@, pattern@, i as int) && forall|j: int|
                0 <= j < i ==> !occurs_at(s@, pattern@, j));
            assert(occurs_at(s@, pattern@, f) && forall|j: int|
                0 <= j < f ==> !occurs_at(s@, pattern@, j));
            assert(f == i) by {
                if f < i {
                    assert(!occurs_at(s@, pattern@, f));
                }
                if f > i {
                    assert(!occurs_at(s@, pattern@, i as int));
                }
            }
            return Some(i);
        }
        if i == last {
            assert forall|k: int| !occurs_at(s@, pattern@, k) by {
                if occurs_at(s@, pattern@, k) {
                    assert(k <= i);
                }
            }
            return None;
        }
        i = i + 1;
    }
}

/// The order of `String`: lexicographic over the characters' code points.
pub open spec fn text_lt(a: Seq<char>, b: Seq<char>) -> bool
    decreases a.len(),
{
    if a.len() == 0 {
        b.len() > 0
    } else if b.len() == 0 {
        false
    } else if a[0] != b[0] {
        (a[0] as u32) < (b[0] as u32)
    } else {
        text_lt(a.drop_first(), b.drop_first())
    }
}

/// Relies on `slice::sort` over `String`: the same items, in ascending order
/// of `String`'s `Ord`, which compares the UTF-8 bytes and so the characters'
/// code points.
#[verifier::external_body]
pub(crate) fn sort_texts(v: &mut Vec<String>)
    ensures
        texts(final(v)@).to_multiset() == texts(old(v)@).to_multiset(),
        forall|i: int, j: int|
            0 <= i < j < final(v)@.len() ==> !text_lt(
                #[trigger] final(v)@[j]@,
                #[trigger] final(v)@[i]@,
            ),
{
    v.sort();
}

} // verus!
