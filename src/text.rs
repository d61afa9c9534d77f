use vstd::prelude::*;
use vstd::string::*;

verus! {

/// The position of the first `c` in `s`, or the length of `s` if there is none.
pub open spec fn first_of(s: Seq<char>, c: char) -> int
    decreases s.len(),
{
    if s.len() == 0 {
        0
    } else if s[0] == c {
        0
    } else {
        1 + first_of(s.drop_first(), c)
    }
}

/// `l` without a carriage return at its end.
pub open spec fn strip_cr(l: Seq<char>) -> Seq<char> {
    if l.len() > 0 && l.last() == '\r' {
        l.drop_last()
    } else {
        l
    }
}

/// The lines of `s`: the pieces between line feeds, each ended by its line feed or its
/// carriage return and line feed; a final line feed ends the last line rather than
/// starting an empty one.
pub open spec fn lines_of(s: Seq<char>) -> Seq<Seq<char>>
    decreases s.len(),
{
    if s.len() == 0 {
        Seq::empty()
    } else {
        let k = first_of(s, '\n');
        if k < 0 || k >= s.len() {
            seq![s]
        } else {
            seq![strip_cr(s.subrange(0, k))] + lines_of(s.subrange(k + 1, s.len() as int))
        }
    }
}

/// The characters with the Unicode property White_Space.
pub open spec fn is_space(c: char) -> bool {
    ||| ('\t' <= c <= '\r')
    ||| c == ' '
    ||| c == '\u{85}'
    ||| c == '\u{A0}'
    ||| c == '\u{1680}'
    ||| ('\u{2000}' <= c <= '\u{200A}')
    ||| c == '\u{2028}'
    ||| c == '\u{2029}'
    ||| c == '\u{202F}'
    ||| c == '\u{205F}'
    ||| c == '\u{3000}'
}

/// Whether `c` is white space.
pub fn is_space_char(c: char) -> (r: bool)
    ensures
        r == is_space(c),
{
    ('\t' <= c && c <= '\r') || c == ' ' || c == '\u{85}' || c == '\u{A0}' || c == '\u{1680}' || ('\u{2000}' <= c
        && c <= '\u{200A}') || c == '\u{2028}' || c == '\u{2029}' || c == '\u{202F}' || c == '\u{205F}' || c
        == '\u{3000}'
}

pub open spec fn trim_start(s: Seq<char>) -> Seq<char>
    decreases s.len(),
{
    if s.len() > 0 && is_space(s[0]) {
        trim_start(s.drop_first())
    } else {
        s
    }
}

pub open spec fn trim_end(s: Seq<char>) -> Seq<char>
    decreases s.len(),
{
    if s.len() > 0 && is_space(s.last()) {
        trim_end(s.drop_last())
    } else {
        s
    }
}

/// `s` without the white space at either end.
pub open spec fn trim(s: Seq<char>) -> Seq<char> {
    trim_end(trim_start(s))
}

/// The key and the value of a line `key = value`: the trimmed text before the first `=`,
/// and the trimmed text after it up to the next `=`, if any. None if there is no `=`.
pub open spec fn key_value(s: Seq<char>) -> Option<(Seq<char>, Seq<char>)> {
    let i = first_of(s, '=');
    if i >= s.len() {
        None
    } else {
        let rest = s.subrange(i + 1, s.len() as int);
        Some((trim(s.subrange(0, i)), trim(rest.subrange(0, first_of(rest, '=')))))
    }
}

pub open spec fn is_digit_char(c: char) -> bool {
    '0' <= c <= '9'
}

/// The number that a run of decimal digits spells.
pub open spec fn digit_chars_value(ds: Seq<char>) -> nat
    decreases ds.len(),
{
    if ds.len() == 0 {
        0
    } else {
        digit_chars_value(ds.drop_last()) * 10 + (ds.last() as nat - '0' as nat) as nat
    }
}

/// The unsigned 32-bit number that a run of decimal digits spells, if it is a
/// nonempty run of digits whose value fits.
pub open spec fn u32_digits_value(ds: Seq<char>) -> Option<u32> {
    if ds.len() == 0 || exists|i: int| 0 <= i < ds.len() && !is_digit_char(#[trigger] ds[i]) {
        None
    } else if digit_chars_value(ds) > u32::MAX {
        None
    } else {
        Some(digit_chars_value(ds) as u32)
    }
}

/// The unsigned 32-bit number that `s` spells: an optional `+`, then one or more decimal
/// digits, of a value that fits.
pub open spec fn u32_text_value(s: Seq<char>) -> Option<u32> {
    if s.len() > 0 && s[0] == '+' {
        u32_digits_value(s.drop_first())
    } else {
        u32_digits_value(s)
    }
}

/// The first `c` in `s` at or after `from` is at `k`, found by a scan.
pub proof fn lemma_first_of_at(s: Seq<char>, c: char, from: int, k: int)
    requires
        0 <= from <= k <= s.len(),
        forall|j: int| from <= j < k ==> s[j] != c,
        k < s.len() ==> s[k] == c,
    ensures
        first_of(s.subrange(from, s.len() as int), c) == k - from,
    decreases k - from,
{
    let t = s.subrange(from, s.len() as int);
    if from < k {
        lemma_first_of_at(s, c, from + 1, k);
        assert(t.drop_first() == s.subrange(from + 1, s.len() as int));
    }
}

/// Whether `s` is the text of the literal `lit`.
pub fn eq_lit(s: &Vec<char>, lit: &str) -> (r: bool)
    ensures
        r == (s@ == lit@),
{
    let n = lit.unicode_len();
    if s.len() != n {
        return false;
    }
    let mut i: usize = 0;
    while i < n
        invariant
            i <= n,
            n == lit@.len(),
            s@.len() == n,
            forall|j: int| 0 <= j < i ==> s@[j] == lit@[j],
        decreases n - i,
    {
        if s[i] != lit.get_char(i) {
            return false;
        }
        i = i + 1;
    }
    assert(s@ =~= lit@);
    true
}

/// Splits `text` into its lines.
pub fn split_lines(text: &Vec<char>) -> (r: Vec<Vec<char>>)
    ensures
        r@.map_values(|l: Vec<char>| l@) == lines_of(text@),
{
    let ghost s = text@;
    let mut lines: Vec<Vec<char>> = Vec::new();
    let mut start: usize = 0;
    assert(s.subrange(0, s.len() as int) == s);
    assert(lines@.map_values(|l: Vec<char>| l@) =~= Seq::<Seq<char>>::empty());
    while start < text.len()
        invariant
            start <= text.len(),
            s == text@,
            lines@.map_values(|l: Vec<char>| l@) + lines_of(s.subrange(start as int, s.len() as int))
                == lines_of(s),
        decreases text.len() - start,
    {
        let ghost rest = s.subrange(start as int, s.len() as int);
        let mut line: Vec<char> = Vec::new();
        let mut k: usize = start;
        while k < text.len() && text[k] != '\n'
            invariant
                start <= k <= text.len(),
                s == text@,
                line@ == s.subrange(start as int, k as int),
                forall|j: int| start <= j < k ==> s[j] != '\n',
            decreases text.len() - k,
        {
            line.push(text[k]);
            assert(s.subrange(start as int, k + 1) == s.subrange(start as int, k as int).push(s[k as int]));
            k = k + 1;
        }
        proof {
            lemma_first_of_at(s, '\n', start as int, k as int);
            assert(rest.len() > 0);
            if (k as int) < s.len() {
                assert(rest.subrange(0, k - start) == line@);
                assert(rest.subrange(k - start + 1, rest.len() as int) == s.subrange(k + 1, s.len() as int));
            } else {
                assert(rest == line@);
            }
        }
        let ghost unstripped = line@;
        if k < text.len() && line.len() > 0 && line[line.len() - 1] == '\r' {
            line.pop();
        }
        assert((k as int) < s.len() ==> line@ == strip_cr(unstripped));
        assert((k as int) >= s.len() ==> line@ == unstripped);
        let ghost before = lines@.map_values(|l: Vec<char>| l@);
        lines.push(line);
        assert(lines@.map_values(|l: Vec<char>| l@) == before.push(line@));
        if k < text.len() {
            start = k + 1;
            assert(before.push(line@) + lines_of(s.subrange(start as int, s.len() as int)) =~= before + (
            seq![line@] + lines_of(s.subrange(start as int, s.len() as int))));
        } else {
            start = k;
            assert(lines_of(s.subrange(start as int, s.len() as int)) == Seq::<Seq<char>>::empty());
            assert(before.push(line@) + Seq::<Seq<char>>::empty() =~= before + seq![line@]);
        }
    }
    assert(lines_of(s.subrange(start as int, s.len() as int)) == Seq::<Seq<char>>::empty());
    assert(lines@.map_values(|l: Vec<char>| l@) + Seq::<Seq<char>>::empty() == lines@.map_values(
        |l: Vec<char>| l@,
    ));
    lines
}

proof fn lemma_trim_start_from(s: Seq<char>, a: int)
    requires
        0 <= a <= s.len(),
        forall|j: int| 0 <= j < a ==> is_space(#[trigger] s[j]),
    ensures
        trim_start(s) == trim_start(s.subrange(a, s.len() as int)),
    decreases a,
{
    if a > 0 {
        assert forall|j: int| 0 <= j < a - 1 implies is_space(#[trigger] s.drop_first()[j]) by {
            assert(s.drop_first()[j] == s[j + 1]);
        }
        lemma_trim_start_from(s.drop_first(), a - 1);
        assert(s.drop_first().subrange(a - 1, s.len() - 1) == s.subrange(a, s.len() as int));
    } else {
        assert(s.subrange(0, s.len() as int) == s);
    }
}

proof fn lemma_trim_end_to(s: Seq<char>, b: int)
    requires
        0 <= b <= s.len(),
        forall|j: int| b <= j < s.len() ==> is_space(#[trigger] s[j]),
    ensures
        trim_end(s) == trim_end(s.subrange(0, b)),
    decreases s.len() - b,
{
    if b < s.len() {
        assert forall|j: int| b <= j < s.len() - 1 implies is_space(#[trigger] s.drop_last()[j]) by {
            assert(s.drop_last()[j] == s[j]);
        }
        lemma_trim_end_to(s.drop_last(), b);
        assert(s.drop_last().subrange(0, b) == s.subrange(0, b));
    } else {
        assert(s.subrange(0, b) == s);
    }
}

/// The characters of `s` from `from` up to `to`, trimmed.
pub fn trim_range(s: &Vec<char>, from: usize, to: usize) -> (r: Vec<char>)
    requires
        from <= to <= s.len(),
    ensures
        r@ == trim(s@.subrange(from as int, to as int)),
{
    let ghost t = s@.subrange(from as int, to as int);
    let mut a: usize = from;
    while a < to && is_space_char(s[a])
        invariant
            from <= a <= to,
            to <= s.len(),
            t == s@.subrange(from as int, to as int),
            forall|j: int| from <= j < a ==> is_space(#[trigger] s@[j]),
        decreases to - a,
    {
        a = a + 1;
    }
    proof {
        assert forall|j: int| 0 <= j < a - from implies is_space(#[trigger] t[j]) by {
            assert(t[j] == s@[from + j]);
        }
        lemma_trim_start_from(t, a - from);
        assert(t.subrange(a - from, t.len() as int) == s@.subrange(a as int, to as int));
        if a < to {
            assert(!is_space(s@[a as int]));
            assert(trim_start(s@.subrange(a as int, to as int)) == s@.subrange(a as int, to as int));
        } else {
            assert(s@.subrange(a as int, to as int).len() == 0);
        }
    }
    let ghost u = s@.subrange(a as int, to as int);
    let mut b: usize = to;
    while b > a && is_space_char(s[b - 1])
        invariant
            a <= b <= to,
            to <= s.len(),
            u == s@.subrange(a as int, to as int),
            forall|j: int| b <= j < to ==> is_space(#[trigger] s@[j]),
        decreases b - a,
    {
        b = b - 1;
    }
    proof {
        assert forall|j: int| b - a <= j < u.len() implies is_space(#[trigger] u[j]) by {
            assert(u[j] == s@[a + j]);
        }
        lemma_trim_end_to(u, b - a);
        assert(u.subrange(0, b - a) == s@.subrange(a as int, b as int));
        if a < b {
            assert(!is_space(s@[b - 1]));
            assert(s@.subrange(a as int, b as int).last() == s@[b - 1]);
        }
        assert(trim_end(s@.subrange(a as int, b as int)) == s@.subrange(a as int, b as int));
    }
    let mut r: Vec<char> = Vec::new();
    let mut i: usize = a;
    while i < b
        invariant
            a <= i <= b,
            b <= s.len(),
            r@ == s@.subrange(a as int, i as int),
        decreases b - i,
    {
        r.push(s[i]);
        assert(s@.subrange(a as int, i + 1) == s@.subrange(a as int, i as int).push(s@[i as int]));
        i = i + 1;
    }
    r
}

/// The key and the value of the line `line`, as `key_value` gives them.
pub fn split_key_value(line: &Vec<char>) -> (r: Option<(Vec<char>, Vec<char>)>)
    ensures
        match key_value(line@) {
            None => r is None,
            Some((k, v)) => r matches Some((rk, rv)) && rk@ == k && rv@ == v,
        },
{
    let ghost s = line@;
    let mut i: usize = 0;
    while i < line.len() && line[i] != '='
        invariant
            i <= line.len(),
            forall|j: int| 0 <= j < i ==> s[j] != '=',
            s == line@,
        decreases line.len() - i,
    {
        i = i + 1;
    }
    proof {
        lemma_first_of_at(s, '=', 0, i as int);
        assert(s.subrange(0, s.len() as int) == s);
    }
    if i == line.len() {
        return None;
    }
    let mut j: usize = i + 1;
    while j < line.len() && line[j] != '='
        invariant
            i < j <= line.len(),
            forall|k: int| i + 1 <= k < j ==> s[k] != '=',
            s == line@,
        decreases line.len() - j,
    {
        j = j + 1;
    }
    proof {
        lemma_first_of_at(s, '=', i + 1, j as int);
        let rest = s.subrange(i + 1, s.len() as int);
        assert(rest.subrange(0, j - i - 1) == s.subrange(i + 1, j as int));
    }
    let key = trim_range(line, 0, i);
    let value = trim_range(line, i + 1, j);
    Some((key, value))
}

proof fn lemma_digit_chars_prefix_le(ds: Seq<char>, k: int)
    requires
        0 <= k <= ds.len(),
        forall|i: int| 0 <= i < ds.len() ==> is_digit_char(#[trigger] ds[i]),
    ensures
        digit_chars_value(ds.subrange(0, k)) <= digit_chars_value(ds),
    decreases ds.len(),
{
    if k < ds.len() {
        let p = ds.drop_last();
        assert forall|i: int| 0 <= i < p.len() implies is_digit_char(#[trigger] p[i]) by {
            assert(p[i] == ds[i]);
        }
        lemma_digit_chars_prefix_le(p, k);
        assert(p.subrange(0, k) == ds.subrange(0, k));
        let pv = digit_chars_value(p);
        assert(digit_chars_value(ds) >= pv) by (nonlinear_arith)
            requires
                digit_chars_value(ds) == pv * 10 + (ds.last() as nat - '0' as nat) as nat,
        ;
    } else {
        assert(ds.subrange(0, k) == ds);
    }
}

/// The unsigned 32-bit number that `s` spells, as `u32_text_value` gives it.
pub fn parse_u32(s: &Vec<char>) -> (r: Option<u32>)
    ensures
        r == u32_text_value(s@),
{
    let ghost ds = if s@.len() > 0 && s@[0] == '+' {
        s@.drop_first()
    } else {
        s@
    };
    let start: usize = if s.len() > 0 && s[0] == '+' {
        1
    } else {
        0
    };
    assert(ds == s@.subrange(start as int, s@.len() as int));
    assert(u32_text_value(s@) == u32_digits_value(ds));
    if start == s.len() {
        return None;
    }
    let mut value: u64 = 0;
    let mut i: usize = start;
    while i < s.len()
        invariant
            start <= i <= s.len(),
            ds == s@.subrange(start as int, s@.len() as int),
            u32_text_value(s@) == u32_digits_value(ds),
            forall|k: int| start <= k < i ==> is_digit_char(#[trigger] s@[k]),
            value == digit_chars_value(s@.subrange(start as int, i as int)),
            value <= u32::MAX,
        decreases s.len() - i,
    {
        let c = s[i];
        if c < '0' || c > '9' {
            assert(ds[i - start] == s@[i as int]);
            assert(!is_digit_char(ds[i - start]));
            assert(exists|k: int| 0 <= k < ds.len() && !is_digit_char(#[trigger] ds[k]));
            assert(u32_digits_value(ds) is None);
            return None;
        }
        assert(s@.subrange(start as int, i + 1).drop_last() == s@.subrange(start as int, i as int));
        assert(s@.subrange(start as int, i + 1).last() == c);
        assert(digit_chars_value(s@.subrange(start as int, i + 1)) == value * 10 + (c as nat - '0' as nat));
        let next = value * 10 + (c as u64 - '0' as u64);
        if next > u32::MAX as u64 {
            proof {
                if forall|k: int| 0 <= k < ds.len() ==> is_digit_char(#[trigger] ds[k]) {
                    lemma_digit_chars_prefix_le(ds, i + 1 - start);
                    assert(ds.subrange(0, i + 1 - start) == s@.subrange(start as int, i + 1));
                    assert(digit_chars_value(ds) > u32::MAX);
                }
                assert(u32_digits_value(ds) is None);
            }
            return None;
        }
        value = next;
        i = i + 1;
    }
    assert(s@.subrange(start as int, i as int) == ds);
    assert forall|k: int| 0 <= k < ds.len() implies is_digit_char(#[trigger] ds[k]) by {
        assert(ds[k] == s@[start + k]);
    }
    Some(value as u32)
}

} // verus!
