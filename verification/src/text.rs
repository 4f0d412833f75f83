//! Small string operations shared by the modules of the library.
use vstd::prelude::*;
use vstd::string::*;

verus! {

/// The character sequences of a sequence of strings.
pub open spec fn strings_view(v: Seq<String>) -> Seq<Seq<char>> {
    v.map_values(|s: String| s@)
}

/// Whether a string equal to `s` occurs in `v`.
pub fn contains_string(v: &[String], s: &str) -> (r: bool)
    ensures
        r == strings_view(v@).contains(s@),
{
    let target = s.to_owned();
    let mut i: usize = 0;
    while i < v.len()
        invariant
            i <= v@.len(),
            target@ == s@,
            forall|j: int| 0 <= j < i ==> v@[j]@ != s@,
        decreases v@.len() - i,
    {
        if v[i] == target {
            assert(strings_view(v@)[i as int] == s@);
            return true;
        }
        i = i + 1;
    }
    assert forall|j: int| 0 <= j < strings_view(v@).len() implies strings_view(v@)[j] != s@ by {
        assert(v@[j]@ != s@);
    }
    false
}

/// The text that Rust's `Debug` formatting gives for a string: the string
/// in double quotes, with escapes.
pub uninterp spec fn debug_text(s: Seq<char>) -> Seq<char>;

/// Calls std's `Debug` formatting of `str` (`format!("{:?}", s)`). Claims that
/// the result depends on the characters of `s` alone, and names it `debug_text`.
#[verifier::external_body]
pub fn debug_str(s: &str) -> (r: String)
    ensures
        r@ == debug_text(s@),
{
    format!("{:?}", s)
}

/// Whether two string slices hold the same characters.
pub fn str_eq(a: &str, b: &str) -> (r: bool)
    ensures
        r == (a@ == b@),
{
    let x = a.to_owned();
    let y = b.to_owned();
    x == y
}

/// `a` followed by `b`.
pub fn join2(a: &str, b: &str) -> (r: String)
    ensures
        r@ == a@ + b@,
{
    String::from_str(a).concat(b)
}

/// `a`, `b` and `c` one after another.
pub fn join3(a: &str, b: &str, c: &str) -> (r: String)
    ensures
        r@ == a@ + b@ + c@,
{
    String::from_str(a).concat(b).concat(c)
}

/// The characters of a string slice.
pub fn to_chars(s: &str) -> (r: Vec<char>)
    ensures
        r@ == s@,
{
    let n = s.unicode_len();
    let mut v: Vec<char> = Vec::new();
    let mut i: usize = 0;
    while i < n
        invariant
            n == s@.len(),
            i <= n,
            v@ == s@.take(i as int),
        decreases n - i,
    {
        v.push(s.get_char(i));
        i = i + 1;
        assert(v@ =~= s@.take(i as int));
    }
    assert(s@.take(n as int) =~= s@);
    v
}

/// Calls std's `String::from_iter` (its `FromIterator<&char>`) on the
/// characters of `v`. Claims that the string holds those characters.
#[verifier::external_body]
pub fn string_from_chars(v: &Vec<char>) -> (r: String)
    ensures
        r@ == v@,
{
    String::from_iter(v)
}

/// A character that Rust counts as white space (`char::is_whitespace`: the
/// Unicode `White_Space` property).
pub open spec fn is_space(c: char) -> bool {
    ||| c == '\t' || c == '\n' || c == '\u{0B}' || c == '\u{0C}' || c == '\r' || c == ' '
    ||| c == '\u{85}' || c == '\u{A0}' || c == '\u{1680}'
    ||| ('\u{2000}' <= c && c <= '\u{200A}')
    ||| c == '\u{2028}' || c == '\u{2029}' || c == '\u{202F}' || c == '\u{205F}' || c == '\u{3000}'
}

pub fn char_is_space(c: char) -> (r: bool)
    ensures
        r == is_space(c),
{
    c == '\t' || c == '\n' || c == '\u{0B}' || c == '\u{0C}' || c == '\r' || c == ' '
        || c == '\u{85}' || c == '\u{A0}' || c == '\u{1680}'
        || ('\u{2000}' <= c && c <= '\u{200A}')
        || c == '\u{2028}' || c == '\u{2029}' || c == '\u{202F}' || c == '\u{205F}' || c == '\u{3000}'
}

/// `s` without the white space at its start and at its end.
pub open spec fn trimmed(s: Seq<char>, a: int, b: int) -> bool {
    &&& 0 <= a <= b <= s.len()
    &&& forall|i: int| 0 <= i < a ==> is_space(#[trigger] s[i])
    &&& forall|i: int| b <= i < s.len() ==> is_space(#[trigger] s[i])
    &&& a < b ==> !is_space(s[a]) && !is_space(s[b - 1])
}

pub open spec fn trim_spec(s: Seq<char>) -> Seq<char> {
    let (a, b) = choose|a: int, b: int| trimmed(s, a, b);
    s.subrange(a, b)
}

proof fn lemma_trimmed_unique(s: Seq<char>, a: int, b: int, c: int, d: int)
    requires
        trimmed(s, a, b),
        trimmed(s, c, d),
    ensures
        s.subrange(a, b) == s.subrange(c, d),
{
    if a < b && c < d {
        if a < c { assert(is_space(s[a])); }
        if c < a { assert(is_space(s[c])); }
        if b < d { assert(is_space(s[d - 1])); }
        if d < b { assert(is_space(s[b - 1])); }
    } else if a < b {
        if c <= a { assert(d <= a || is_space(s[a])); assert(is_space(s[a])); }
        else { assert(is_space(s[a])); }
    } else if c < d {
        if a <= c { assert(is_space(s[c])); } else { assert(is_space(s[c])); }
    }
    assert(s.subrange(a, b) =~= s.subrange(c, d));
}

/// The string without leading and trailing white space (as `str::trim`).
pub fn trim(s: &str) -> (r: &str)
    ensures
        r@ == trim_spec(s@),
{
    let n = s.unicode_len();
    let mut a: usize = 0;
    while a < n && char_is_space(s.get_char(a))
        invariant
            n == s@.len(),
            a <= n,
            forall|i: int| 0 <= i < a ==> is_space(#[trigger] s@[i]),
        decreases n - a,
    {
        a = a + 1;
    }
    let mut b: usize = n;
    while b > a && char_is_space(s.get_char(b - 1))
        invariant
            n == s@.len(),
            a <= b <= n,
            a < n ==> !is_space(s@[a as int]),
            forall|i: int| b <= i < n ==> is_space(#[trigger] s@[i]),
        decreases b,
    {
        b = b - 1;
    }
    proof {
        assert(trimmed(s@, a as int, b as int));
        let (c, d) = choose|c: int, d: int| trimmed(s@, c, d);
        lemma_trimmed_unique(s@, a as int, b as int, c, d);
    }
    s.substring_char(a, b)
}

/// A line without the carriage return that ends it.
pub open spec fn strip_cr(l: Seq<char>) -> Seq<char> {
    if l.len() > 0 && l.last() == '\r' { l.drop_last() } else { l }
}

/// The first position of `c` in `s`, or its length.
pub open spec fn first_pos_of(s: Seq<char>, c: char) -> int
    decreases s.len(),
{
    if s.len() == 0 {
        0
    } else if s[0] == c {
        0
    } else {
        1 + first_pos_of(s.drop_first(), c)
    }
}

pub proof fn lemma_first_pos_of(s: Seq<char>, c: char)
    ensures
        0 <= first_pos_of(s, c) <= s.len(),
        forall|j: int| 0 <= j < first_pos_of(s, c) ==> s[j] != c,
        first_pos_of(s, c) < s.len() ==> s[first_pos_of(s, c)] == c,
    decreases s.len(),
{
    if s.len() > 0 && s[0] != c {
        lemma_first_pos_of(s.drop_first(), c);
        assert forall|j: int| 0 <= j < first_pos_of(s, c) implies s[j] != c by {
            if j > 0 {
                assert(s[j] == s.drop_first()[j - 1]);
            }
        }
    }
}

pub proof fn lemma_first_pos_of_unique(s: Seq<char>, c: char, p: int)
    requires
        0 <= p <= s.len(),
        forall|j: int| 0 <= j < p ==> s[j] != c,
        p < s.len() ==> s[p] == c,
    ensures
        first_pos_of(s, c) == p,
{
    lemma_first_pos_of(s, c);
    let q = first_pos_of(s, c);
    if q < p { assert(s[q] == c); }
    if p < q { assert(s[p] == c); }
}

/// The lines of a text, as `str::lines` gives them: split at `\n`, a `\r`
/// before the `\n` dropped, no last empty line after a final `\n`.
pub open spec fn lines_spec(s: Seq<char>) -> Seq<Seq<char>>
    decreases s.len(),
{
    if s.len() == 0 {
        Seq::empty()
    } else {
        let p = first_pos_of(s, '\n');
        if p < 0 || p >= s.len() {
            seq![s]
        } else {
            seq![strip_cr(s.take(p))] + lines_spec(s.skip(p + 1))
        }
    }
}

/// The lines separated by `\n`: no `\n` before the first nor after the last.
pub open spec fn newline_joined(ls: Seq<Seq<char>>) -> Seq<char>
    decreases ls.len(),
{
    if ls.len() == 0 {
        Seq::empty()
    } else if ls.len() == 1 {
        ls[0]
    } else {
        ls[0] + seq!['\n'] + newline_joined(ls.skip(1))
    }
}

/// A text without the `\n` it may end with.
pub open spec fn without_final_newline(s: Seq<char>) -> Seq<char> {
    if s.len() > 0 && s.last() == '\n' { s.drop_last() } else { s }
}

/// Splitting a text without carriage returns into lines loses nothing but a
/// final `\n`: no line holds a `\n`, and the lines joined by `\n` give the
/// text back, without the `\n` it may end with.
pub proof fn lemma_lines_rejoin(s: Seq<char>)
    requires
        forall|j: int| 0 <= j < s.len() ==> s[j] != '\r',
    ensures
        forall|k: int, j: int| 0 <= k < lines_spec(s).len() && 0 <= j < lines_spec(s)[k].len()
            ==> #[trigger] lines_spec(s)[k][j] != '\n',
        newline_joined(lines_spec(s)) == without_final_newline(s),
    decreases s.len(),
{
    if s.len() > 0 {
        lemma_first_pos_of(s, '\n');
        let p = first_pos_of(s, '\n');
        let ls = lines_spec(s);
        if p < s.len() {
            let rest = s.skip(p + 1);
            let head = s.take(p);
            assert forall|j: int| 0 <= j < rest.len() implies rest[j] != '\r' by {
                assert(rest[j] == s[p + 1 + j]);
            }
            lemma_lines_rejoin(rest);
            if head.len() > 0 {
                assert(head.last() == s[p - 1]);
            }
            assert(strip_cr(head) == head);
            let lr = lines_spec(rest);
            assert(ls == seq![head] + lr);
            assert forall|k: int, j: int| 0 <= k < ls.len() && 0 <= j < ls[k].len()
                implies #[trigger] ls[k][j] != '\n' by {
                if k == 0 {
                    assert(ls[0] == head);
                    assert(head[j] == s[j]);
                } else {
                    assert(ls[k] == lr[k - 1]);
                }
            }
            if rest.len() == 0 {
                assert(lr =~= Seq::<Seq<char>>::empty());
                assert(ls =~= seq![head]);
                assert(s.drop_last() =~= head);
            } else {
                lemma_first_pos_of(rest, '\n');
                assert(lr.len() > 0);
                assert(ls.skip(1) =~= lr);
                assert(rest.last() == s.last());
                assert(s =~= head + seq!['\n'] + rest);
                if rest.last() == '\n' {
                    assert(s.drop_last() =~= head + seq!['\n'] + rest.drop_last());
                }
            }
        } else {
            if s.last() == '\r' {
                assert(s[s.len() - 1] == '\r');
            }
            assert(strip_cr(s) == s);
            assert(ls == seq![s]);
            assert forall|k: int, j: int| 0 <= k < ls.len() && 0 <= j < ls[k].len()
                implies #[trigger] ls[k][j] != '\n' by {
                assert(ls[k] == s);
            }
            assert(s[s.len() - 1] != '\n');
        }
    }
}

/// The lines of a text (as `str::lines`).
pub fn lines(s: &str) -> (r: Vec<String>)
    ensures
        strings_view(r@) == lines_spec(s@),
{
    let cs = to_chars(s);
    let n = cs.len();
    let mut out: Vec<String> = Vec::new();
    let mut start: usize = 0;
    assert(s@.skip(0) =~= s@);
    while start < n
        invariant
            n == cs@.len(),
            cs@ == s@,
            start <= n,
            strings_view(out@) + lines_spec(s@.skip(start as int)) == lines_spec(s@),
        decreases n - start,
    {
        let mut e: usize = start;
        while e < n && cs[e] != '\n'
            invariant
                n == cs@.len(),
                start <= e <= n,
                forall|j: int| start <= j < e ==> cs@[j] != '\n',
            decreases n - e,
        {
            e = e + 1;
        }
        let ghost rest = s@.skip(start as int);
        proof {
            assert forall|j: int| 0 <= j < e - start implies rest[j] != '\n' by {
                assert(rest[j] == cs@[start + j]);
            }
            lemma_first_pos_of_unique(rest, '\n', (e - start) as int);
        }
        let mut stop = e;
        if e < n && e > start && cs[e - 1] == '\r' {
            stop = e - 1;
        }
        let line = s.substring_char(start, stop).to_owned();
        let ghost before = strings_view(out@);
        out.push(line);
        proof {
            assert(strings_view(out@) =~= before.push(line@));
            if e < n {
                assert(line@ == strip_cr(rest.take((e - start) as int)));
                assert(rest.skip((e - start) as int + 1) =~= s@.skip(e as int + 1));
                assert(lines_spec(rest) == seq![line@] + lines_spec(s@.skip(e as int + 1)));
                assert(before.push(line@) + lines_spec(s@.skip(e as int + 1)) =~= before + lines_spec(rest));
            } else {
                assert(line@ =~= rest);
                assert(lines_spec(rest) == seq![line@]);
                assert(s@.skip(n as int) =~= Seq::<char>::empty());
                assert(before.push(line@) + lines_spec(s@.skip(n as int)) =~= before + lines_spec(rest));
            }
        }
        start = if e < n { e + 1 } else { n };
    }
    assert(s@.skip(n as int) =~= Seq::<char>::empty());
    assert(strings_view(out@) + lines_spec(s@.skip(n as int)) =~= strings_view(out@));
    out
}

/// `s` with every occurrence of `from` replaced by `to`, scanning from the
/// left (as `str::replace`, for a non-empty `from`).
pub open spec fn replaced(s: Seq<char>, from: Seq<char>, to: Seq<char>) -> Seq<char>
    recommends
        from.len() > 0,
    decreases s.len(),
{
    if s.len() == 0 || from.len() == 0 {
        s
    } else if from.len() <= s.len() && s.take(from.len() as int) == from {
        to + replaced(s.skip(from.len() as int), from, to)
    } else {
        seq![s[0]] + replaced(s.skip(1), from, to)
    }
}

/// Whether `pat` stands in `s` at position `i`.
pub fn matches_at(s: &Vec<char>, i: usize, pat: &Vec<char>) -> (r: bool)
    requires
        i <= s@.len(),
    ensures
        r == (i + pat@.len() <= s@.len() && s@.subrange(i as int, i + pat@.len()) == pat@),
{
    if pat.len() > s.len() - i {
        return false;
    }
    let sl = s.len();
    let mut k: usize = 0;
    while k < pat.len()
        invariant
            sl == s@.len(),
            i + pat@.len() <= s@.len(),
            k <= pat@.len(),
            forall|j: int| 0 <= j < k ==> s@[i + j] == pat@[j],
        decreases pat@.len() - k,
    {
        if s[i + k] != pat[k] {
            assert(s@.subrange(i as int, i + pat@.len())[k as int] != pat@[k as int]);
            return false;
        }
        k = k + 1;
    }
    assert(s@.subrange(i as int, i + pat@.len()) =~= pat@);
    true
}

/// `s` with every occurrence of the non-empty `from` replaced by `to` (as
/// `str::replace`).
pub fn replace_all(s: &str, from: &str, to: &str) -> (r: String)
    requires
        from@.len() > 0,
    ensures
        r@ == replaced(s@, from@, to@),
{
    let cs = to_chars(s);
    let fs = to_chars(from);
    let ts = to_chars(to);
    let n = cs.len();
    let mut out: Vec<char> = Vec::new();
    let mut i: usize = 0;
    assert(s@.skip(0) =~= s@);
    while i < n
        invariant
            n == cs@.len(),
            cs@ == s@,
            fs@ == from@,
            ts@ == to@,
            from@.len() > 0,
            i <= n,
            out@ + replaced(s@.skip(i as int), from@, to@) == replaced(s@, from@, to@),
        decreases n - i,
    {
        let ghost rest = s@.skip(i as int);
        let ghost before = out@;
        if matches_at(&cs, i, &fs) {
            proof {
                assert(rest.take(from@.len() as int) =~= s@.subrange(i as int, i + from@.len()));
                assert(rest.skip(from@.len() as int) =~= s@.skip(i + from@.len()));
            }
            let mut k: usize = 0;
            while k < ts.len()
                invariant
                    k <= ts@.len(),
                    out@ == before + ts@.take(k as int),
                decreases ts@.len() - k,
            {
                out.push(ts[k]);
                k = k + 1;
                assert(out@ =~= before + ts@.take(k as int));
            }
            assert(ts@.take(ts@.len() as int) =~= ts@);
            assert(out@ + replaced(s@.skip(i + fs@.len()), from@, to@) =~= before + replaced(rest, from@, to@));
            i = i + fs.len();
        } else {
            proof {
                assert(from@.len() <= rest.len() ==> rest.take(from@.len() as int) =~= s@.subrange(i as int, i + from@.len()));
                assert(rest.skip(1) =~= s@.skip(i + 1));
                assert(rest[0] == cs@[i as int]);
            }
            out.push(cs[i]);
            assert(out@ + replaced(s@.skip(i + 1), from@, to@) =~= before + replaced(rest, from@, to@));
            i = i + 1;
        }
    }
    assert(s@.skip(n as int) =~= Seq::<char>::empty());
    assert(out@ + replaced(s@.skip(n as int), from@, to@) =~= out@);
    string_from_chars(&out)
}

/// The decimal digit `d` as a character.
pub open spec fn digit_char(d: nat) -> char {
    seq!['0', '1', '2', '3', '4', '5', '6', '7', '8', '9'][d as int]
}

/// The decimal text of `n` (as `u32`'s `Display`).
pub open spec fn decimal_text(n: nat) -> Seq<char>
    decreases n,
{
    if n < 10 {
        seq![digit_char(n)]
    } else {
        decimal_text(n / 10).push(digit_char(n % 10))
    }
}

fn digit(d: u64) -> (c: char)
    requires
        d < 10,
    ensures
        c == digit_char(d as nat),
{
    match d {
        0 => '0',
        1 => '1',
        2 => '2',
        3 => '3',
        4 => '4',
        5 => '5',
        6 => '6',
        7 => '7',
        8 => '8',
        _ => '9',
    }
}

fn push_decimal(n: u64, out: &mut Vec<char>)
    ensures
        final(out)@ == old(out)@ + decimal_text(n as nat),
    decreases n,
{
    if n >= 10 {
        push_decimal(n / 10, out);
    }
    out.push(digit(n % 10));
    assert(n >= 10 ==> decimal_text(n as nat) == decimal_text((n / 10) as nat).push(digit_char((n % 10) as nat)));
}

/// The decimal text of `n`.
pub fn decimal(n: u32) -> (r: String)
    ensures
        r@ == decimal_text(n as nat),
{
    let mut v: Vec<char> = Vec::new();
    push_decimal(n as u64, &mut v);
    assert(v@ =~= decimal_text(n as nat));
    string_from_chars(&v)
}

/// The decimal text of `n`.
pub fn decimal_usize(n: usize) -> (r: String)
    ensures
        r@ == decimal_text(n as nat),
{
    let mut v: Vec<char> = Vec::new();
    push_decimal(n as u64, &mut v);
    assert(v@ =~= decimal_text(n as nat));
    string_from_chars(&v)
}

} // verus!
