//! Character-level string utilities: equality, delimiter splitting, joining,
//! line splitting, and decimal parsing/rendering. Everything here is the
//! mathematical backbone for the table, BED, and join modules.
use vstd::prelude::*;

verus! {

// ---------------------------------------------------------------------------
// digits
// ---------------------------------------------------------------------------
/// An ASCII decimal digit.
pub open spec fn is_digit(c: char) -> bool {
    48 <= c as int <= 57
}

/// Numeric value of an ASCII digit character.
pub open spec fn digit_val(c: char) -> int {
    c as int - 48
}

/// The ASCII character for one decimal digit value.
pub open spec fn digit_char(d: int) -> char {
    ((48 + d) as u8) as char
}

/// A string that denotes a non-negative decimal number: one or more digits.
pub open spec fn is_number(s: Seq<char>) -> bool {
    s.len() > 0 && (forall|i: int| 0 <= i < s.len() ==> is_digit(s[i]))
}

/// The value denoted by a digit string, most significant digit first.
pub open spec fn number_val(s: Seq<char>) -> int
    decreases s.len(),
{
    if s.len() == 0 {
        0
    } else {
        number_val(s.drop_last()) * 10 + digit_val(s.last())
    }
}

/// The canonical decimal rendering of a non-negative integer.
pub open spec fn udigits(n: nat) -> Seq<char>
    decreases n,
{
    if n < 10 {
        seq![digit_char(n as int)]
    } else {
        udigits(n / 10).push(digit_char((n % 10) as int))
    }
}

/// The canonical decimal rendering of a signed integer.
pub open spec fn idigits(i: int) -> Seq<char> {
    if i < 0 {
        seq!['-'] + udigits((-i) as nat)
    } else {
        udigits(i as nat)
    }
}

proof fn lemma_number_val_nonneg(s: Seq<char>)
    requires
        forall|i: int| 0 <= i < s.len() ==> is_digit(s[i]),
    ensures
        number_val(s) >= 0,
    decreases s.len(),
{
    if s.len() > 0 {
        lemma_number_val_nonneg(s.drop_last());
    }
}

/// Extending a digit string on the right can only increase its value.
proof fn lemma_number_val_prefix(s: Seq<char>, j: int)
    requires
        forall|i: int| 0 <= i < s.len() ==> is_digit(s[i]),
        0 <= j <= s.len(),
    ensures
        number_val(s.take(j)) <= number_val(s),
    decreases s.len() - j,
{
    if j < s.len() {
        lemma_number_val_prefix(s, j + 1);
        lemma_number_val_nonneg(s.take(j));
        assert(s.take(j + 1).drop_last() =~= s.take(j));
        assert(number_val(s.take(j + 1)) == number_val(s.take(j)) * 10 + digit_val(s.take(
            j + 1,
        ).last()));
    } else {
        assert(s.take(j) =~= s);
    }
}

/// A single digit as a string slice.
fn digit_str(d: u64) -> (r: &'static str)
    requires
        d < 10,
    ensures
        r@ =~= seq![digit_char(d as int)],
{
    proof {
        reveal_strlit("0");
        reveal_strlit("1");
        reveal_strlit("2");
        reveal_strlit("3");
        reveal_strlit("4");
        reveal_strlit("5");
        reveal_strlit("6");
        reveal_strlit("7");
        reveal_strlit("8");
        reveal_strlit("9");
    }
    match d {
        0 => "0",
        1 => "1",
        2 => "2",
        3 => "3",
        4 => "4",
        5 => "5",
        6 => "6",
        7 => "7",
        8 => "8",
        _ => "9",
    }
}

/// Render a non-negative integer in decimal.
pub fn u64_string(n: u64) -> (r: String)
    ensures
        r@ == udigits(n as nat),
    decreases n,
{
    if n < 10 {
        let r = digit_str(n).to_owned();
        proof {
            assert(r@ =~= udigits(n as nat));
        }
        r
    } else {
        let mut s = u64_string(n / 10);
        s.append(digit_str(n % 10));
        proof {
            assert(s@ =~= udigits(n as nat));
        }
        s
    }
}

/// Render a signed integer in decimal, with a leading minus sign if negative.
pub fn i64_string(n: i64) -> (r: String)
    requires
        n != i64::MIN,
    ensures
        r@ == idigits(n as int),
{
    if n < 0 {
        let mut s = String::from_str("-");
        proof {
            reveal_strlit("-");
        }
        let m: i64 = -n;
        s.append(u64_string(m as u64).as_str());
        proof {
            assert(m as u64 as nat == (-(n as int)) as nat);
            assert(s@ =~= idigits(n as int));
        }
        s
    } else {
        u64_string(n as u64)
    }
}

/// Parse a string of decimal digits. Returns the value exactly when the
/// string is a well-formed number that fits in `usize`.
pub fn parse_usize(s: &str) -> (r: Option<usize>)
    ensures
        r is Some <==> is_number(s@) && number_val(s@) <= usize::MAX,
        r matches Some(n) ==> n == number_val(s@),
{
    let n = s.unicode_len();
    if n == 0 {
        return None;
    }
    let mut acc: usize = 0;
    let mut i: usize = 0;
    while i < n
        invariant
            0 <= i <= n,
            n == s@.len(),
            forall|k: int| 0 <= k < i ==> is_digit(s@[k]),
            acc == number_val(s@.take(i as int)),
        decreases n - i,
    {
        let c = s.get_char(i);
        let u = c as u32;
        if u < 48 || u > 57 {
            return None;
        }
        let d = (u - 48) as usize;
        if acc > (usize::MAX - d) / 10 {
            proof {
                assert(s@.take(i + 1).drop_last() =~= s@.take(i as int));
                assert(number_val(s@.take(i + 1)) == acc * 10 + d);
                if is_number(s@) {
                    lemma_number_val_prefix(s@, i + 1);
                }
            }
            return None;
        }
        acc = acc * 10 + d;
        proof {
            assert(s@.take(i + 1).drop_last() =~= s@.take(i as int));
        }
        i = i + 1;
    }
    proof {
        assert(s@.take(n as int) =~= s@);
    }
    Some(acc)
}

// ---------------------------------------------------------------------------
// equality, splitting, joining
// ---------------------------------------------------------------------------
/// Character-for-character string equality.
pub fn str_eq(a: &str, b: &str) -> (r: bool)
    ensures
        r == (a@ == b@),
{
    let na = a.unicode_len();
    let nb = b.unicode_len();
    if na != nb {
        proof {
            assert(a@ != b@);
        }
        return false;
    }
    let mut i: usize = 0;
    while i < na
        invariant
            0 <= i <= na,
            na == a@.len(),
            na == b@.len(),
            forall|k: int| 0 <= k < i ==> a@[k] == b@[k],
        decreases na - i,
    {
        if a.get_char(i) != b.get_char(i) {
            return false;
        }
        i = i + 1;
    }
    proof {
        assert(a@ =~= b@);
    }
    true
}

/// Split a character sequence on every occurrence of `d`. Always yields at
/// least one (possibly empty) field; `n` delimiters yield `n + 1` fields.
pub open spec fn split_on(s: Seq<char>, d: char) -> Seq<Seq<char>>
    decreases s.len(),
{
    if s.len() == 0 {
        seq![Seq::empty()]
    } else if s[0] == d {
        seq![Seq::<char>::empty()] + split_on(s.skip(1), d)
    } else {
        let r = split_on(s.skip(1), d);
        seq![seq![s[0]] + r[0]] + r.skip(1)
    }
}

pub proof fn lemma_split_len(s: Seq<char>, d: char)
    ensures
        split_on(s, d).len() >= 1,
    decreases s.len(),
{
    if s.len() > 0 {
        lemma_split_len(s.skip(1), d);
    }
}

/// A sequence without the delimiter splits into itself alone.
pub proof fn lemma_split_none(s: Seq<char>, d: char)
    requires
        forall|i: int| 0 <= i < s.len() ==> s[i] != d,
    ensures
        split_on(s, d) =~~= seq![s],
    decreases s.len(),
{
    if s.len() > 0 {
        lemma_split_none(s.skip(1), d);
        assert(seq![s[0]] + s.skip(1) =~= s);
    }
}

/// Splitting at the first delimiter occurrence: the field before it, then
/// the split of what follows it.
pub proof fn lemma_split_first(s: Seq<char>, d: char, i: int)
    requires
        0 <= i < s.len(),
        s[i] == d,
        forall|k: int| 0 <= k < i ==> s[k] != d,
    ensures
        split_on(s, d) =~~= seq![s.take(i)] + split_on(s.skip(i + 1), d),
    decreases i,
{
    lemma_split_len(s.skip(i + 1), d);
    if i == 0 {
        assert(s.skip(1) =~= s.skip(i + 1));
    } else {
        lemma_split_first(s.skip(1), d, i - 1);
        assert(s.skip(1).skip(i) =~= s.skip(i + 1));
        assert(s.skip(1).take(i - 1) =~= s.take(i).skip(1));
        assert(seq![s[0]] + s.take(i).skip(1) =~= s.take(i));
        lemma_split_len(s.skip(1), d);
    }
}

/// Split a string slice on a delimiter character, with no quoting rules.
pub fn split_str(line: &str, d: char) -> (r: Vec<String>)
    ensures
        r.deep_view() == split_on(line@, d),
{
    let n = line.unicode_len();
    let mut fields: Vec<String> = Vec::new();
    let mut start: usize = 0;
    let mut i: usize = 0;
    proof {
        assert(line@.skip(0) =~= line@);
        assert(fields.deep_view() =~= Seq::<Seq<char>>::empty());
    }
    while i < n
        invariant
            0 <= start <= i <= n,
            n == line@.len(),
            forall|k: int| start <= k < i ==> line@[k] != d,
            split_on(line@, d) =~~= fields.deep_view() + split_on(line@.skip(start as int), d),
        decreases n - i,
    {
        if line.get_char(i) == d {
            let f = line.substring_char(start, i).to_owned();
            let ghost dv = fields.deep_view();
            proof {
                let rest = line@.skip(start as int);
                assert(rest[i - start] == d);
                assert(forall|k: int| 0 <= k < i - start ==> rest[k] != d);
                lemma_split_first(rest, d, i - start);
                assert(rest.take(i - start) =~= line@.subrange(start as int, i as int));
                assert(rest.skip(i - start + 1) =~= line@.skip(i + 1));
            }
            fields.push(f);
            proof {
                assert(fields.deep_view() =~= dv.push(line@.subrange(start as int, i as int)));
                assert(dv.push(line@.subrange(start as int, i as int)) =~= dv + seq![
                    line@.subrange(start as int, i as int),
                ]);
            }
            start = i + 1;
        }
        i = i + 1;
    }
    let f = line.substring_char(start, n).to_owned();
    let ghost dv = fields.deep_view();
    proof {
        let rest = line@.skip(start as int);
        lemma_split_none(rest, d);
        assert(rest =~= line@.subrange(start as int, n as int));
    }
    fields.push(f);
    proof {
        assert(fields.deep_view() =~= dv.push(line@.subrange(start as int, n as int)));
        assert(dv.push(line@.subrange(start as int, n as int)) =~= dv + seq![
            line@.subrange(start as int, n as int),
        ]);
        assert(fields.deep_view() =~~= split_on(line@, d));
    }
    fields
}

/// Join fields with a separator character between consecutive fields.
pub open spec fn join_with(rows: Seq<Seq<char>>, sep: char) -> Seq<char>
    decreases rows.len(),
{
    if rows.len() == 0 {
        Seq::empty()
    } else if rows.len() == 1 {
        rows[0]
    } else {
        join_with(rows.drop_last(), sep) + seq![sep] + rows.last()
    }
}

/// Join fields with a tab character.
pub fn join_tab(fields: &Vec<String>) -> (r: String)
    ensures
        r@ == join_with(fields.deep_view(), '\t'),
{
    proof {
        reveal_strlit("\t");
    }
    let mut out = String::new();
    let mut i: usize = 0;
    while i < fields.len()
        invariant
            0 <= i <= fields@.len(),
            out@ == join_with(fields.deep_view().take(i as int), '\t'),
        decreases fields@.len() - i,
    {
        let ghost o0 = out@;
        if i > 0 {
            out.append("\t");
        }
        out.append(fields[i].as_str());
        proof {
            reveal_strlit("\t");
            let dv = fields.deep_view();
            assert(dv.take(i + 1).drop_last() =~= dv.take(i as int));
            assert(dv.take(i + 1).last() == dv[i as int]);
            assert("\t"@ =~= seq!['\t']);
            if i > 0 {
                assert(out@ == o0 + "\t"@ + dv[i as int]);
                assert(join_with(dv.take(i + 1), '\t') == join_with(dv.take(i as int), '\t')
                    + seq!['\t'] + dv[i as int]);
                assert(out@ =~= join_with(dv.take(i + 1), '\t'));
            } else {
                assert(out@ =~= dv[0]);
                assert(out@ =~= join_with(dv.take(i + 1), '\t'));
            }
        }
        i = i + 1;
    }
    proof {
        assert(fields.deep_view().take(fields@.len() as int) =~= fields.deep_view());
    }
    out
}

// ---------------------------------------------------------------------------
// lines
// ---------------------------------------------------------------------------
/// A line with any trailing carriage return removed.
pub open spec fn strip_cr(l: Seq<char>) -> Seq<char> {
    if l.len() > 0 && l.last() == '\r' {
        l.drop_last()
    } else {
        l
    }
}

/// The lines of a text: newline-separated, a final empty segment after a
/// trailing newline is not a line, and each line loses a trailing `\r`.
pub open spec fn lines_of(s: Seq<char>) -> Seq<Seq<char>> {
    let parts = split_on(s, '\n');
    let trimmed = if parts.last().len() == 0 {
        parts.drop_last()
    } else {
        parts
    };
    trimmed.map_values(|l: Seq<char>| strip_cr(l))
}

/// Split a text into its lines, as a buffered reader hands them out.
pub fn split_lines(content: &str) -> (r: Vec<String>)
    ensures
        r.deep_view() == lines_of(content@),
{
    proof {
        reveal_strlit("\n");
        reveal_strlit("\r");
    }
    let raw = split_str(content, '\n');
    let mut out: Vec<String> = Vec::new();
    let n = if raw.len() > 0 && raw[raw.len() - 1].as_str().unicode_len() == 0 {
        raw.len() - 1
    } else {
        raw.len()
    };
    proof {
        lemma_split_len(content@, '\n');
    }
    let mut i: usize = 0;
    while i < n
        invariant
            0 <= i <= n <= raw@.len(),
            raw.deep_view() == split_on(content@, '\n'),
            n == raw@.len() || (n == raw@.len() - 1 && raw.deep_view().last().len() == 0),
            n == raw@.len() ==> raw.deep_view().last().len() > 0,
            out.deep_view() =~~= lines_of(content@).take(i as int),
            lines_of(content@).len() == n,
        decreases n - i,
    {
        let line = &raw[i];
        let ll = line.as_str().unicode_len();
        let stripped = if ll > 0 && line.as_str().get_char(ll - 1) == '\r' {
            line.as_str().substring_char(0, ll - 1).to_owned()
        } else {
            line.clone()
        };
        let ghost odv = out.deep_view();
        proof {
            assert(stripped@ =~= strip_cr(raw.deep_view()[i as int]));
        }
        out.push(stripped);
        proof {
            let parts = split_on(content@, '\n');
            let trimmed = if parts.last().len() == 0 {
                parts.drop_last()
            } else {
                parts
            };
            assert(trimmed[i as int] == raw.deep_view()[i as int]);
            assert(lines_of(content@)[i as int] == strip_cr(raw.deep_view()[i as int]));
            assert(out.deep_view() =~= odv.push(stripped@));
            assert(out.deep_view() =~~= lines_of(content@).take(i + 1));
        }
        i = i + 1;
    }
    proof {
        assert(lines_of(content@).take(n as int) =~~= lines_of(content@));
    }
    out
}

} // verus!
