//! The generic delimited-table model and the left-join engine: a table is
//! an ordered sequence of rows of string fields; the joiner matches a
//! primary table against a stats table on a gene-identifier column, with a
//! last-write-wins index and `na` padding for unmatched keys.
use vstd::prelude::*;
use crate::text::is_number;
use crate::text::number_val;
use crate::text::lines_of;
use crate::text::split_on;
use crate::text::join_with;
use crate::text::split_str;
use crate::text::split_lines;
use crate::text::parse_usize;
use crate::text::str_eq;

verus! {

/// Errors of the join engine.
#[derive(Debug, Clone, Copy, PartialEq, Eq, Structural)]
pub enum TableError {
    /// The requested key column name is absent from the stats header.
    ColumnNotFound,
    /// A stats data row is shorter than the resolved key column.
    InsufficientColumns,
}

/// The table a delimited text denotes: each line split on the delimiter.
pub open spec fn table_of(s: Seq<char>, d: char) -> Seq<Seq<Seq<char>>> {
    lines_of(s).map_values(|l: Seq<char>| split_on(l, d))
}

/// Parse a delimited text into rows of fields. Rows may differ in width;
/// no quoting or escaping is interpreted.
pub fn parse_delimited_file(content: &str, delimiter: char) -> (r: Vec<Vec<String>>)
    ensures
        r.deep_view() == table_of(content@, delimiter),
{
    let lines = split_lines(content);
    let mut rows: Vec<Vec<String>> = Vec::new();
    let mut i: usize = 0;
    while i < lines.len()
        invariant
            0 <= i <= lines@.len(),
            lines.deep_view() == lines_of(content@),
            rows.deep_view() =~~= table_of(content@, delimiter).take(i as int),
        decreases lines@.len() - i,
    {
        let row = split_str(lines[i].as_str(), delimiter);
        let ghost dv = rows.deep_view();
        proof {
            assert(lines.deep_view()[i as int] == lines@[i as int]@);
        }
        rows.push(row);
        proof {
            assert(rows.deep_view() =~= dv.push(row.deep_view()));
            assert(rows.deep_view() =~~= table_of(content@, delimiter).take(i + 1));
        }
        i = i + 1;
    }
    proof {
        assert(table_of(content@, delimiter).take(lines@.len() as int) =~~= table_of(
            content@,
            delimiter,
        ));
    }
    rows
}

/// Whether a string can serve as a numeric column index.
pub open spec fn is_index_arg(s: Seq<char>) -> bool {
    is_number(s) && number_val(s) <= usize::MAX
}

/// Classify a key-column argument: the parsed number where it is numeric,
/// the string itself otherwise.
pub fn parse_value<'a>(value: &'a str) -> (r: Result<usize, &'a str>)
    ensures
        is_index_arg(value@) ==> (r matches Ok(n) && n == number_val(value@)),
        !is_index_arg(value@) ==> (r matches Err(v) && v@ == value@),
{
    match parse_usize(value) {
        Some(n) => Ok(n),
        None => Err(value),
    }
}

/// Index of the first exact match of `name` in a header row.
pub open spec fn name_col(header: Seq<Seq<char>>, name: Seq<char>) -> Option<int>
    decreases header.len(),
{
    if header.len() == 0 {
        None
    } else if header[0] == name {
        Some(0int)
    } else {
        match name_col(header.skip(1), name) {
            Some(i) => Some(i + 1),
            None => None,
        }
    }
}

proof fn lemma_name_col_found(header: Seq<Seq<char>>, name: Seq<char>, k: int)
    requires
        0 <= k < header.len(),
        header[k] == name,
        forall|j: int| 0 <= j < k ==> header[j] != name,
    ensures
        name_col(header, name) == Some(k),
    decreases k,
{
    if k > 0 {
        lemma_name_col_found(header.skip(1), name, k - 1);
    }
}

proof fn lemma_name_col_missing(header: Seq<Seq<char>>, name: Seq<char>)
    requires
        forall|j: int| 0 <= j < header.len() ==> header[j] != name,
    ensures
        name_col(header, name) is None,
    decreases header.len(),
{
    if header.len() > 0 {
        lemma_name_col_missing(header.skip(1), name);
    }
}

/// The key column the argument selects: a numeric argument is used as the
/// index directly, any other argument names a header column.
pub open spec fn resolve_col(arg: Seq<char>, header: Seq<Seq<char>>) -> Option<int> {
    if is_index_arg(arg) {
        Some(number_val(arg))
    } else {
        name_col(header, arg)
    }
}

/// Resolve the key-column argument against the stats header row.
pub fn resolve_key_column(gene_col: &str, header: &Vec<String>) -> (r: Result<usize, TableError>)
    ensures
        match r {
            Ok(c) => resolve_col(gene_col@, header.deep_view()) == Some(c as int),
            Err(e) => resolve_col(gene_col@, header.deep_view()) is None && e
                == TableError::ColumnNotFound,
        },
{
    match parse_value(gene_col) {
        Ok(c) => Ok(c),
        Err(name) => {
            let mut i: usize = 0;
            while i < header.len()
                invariant
                    0 <= i <= header@.len(),
                    name@ == gene_col@,
                    !is_index_arg(gene_col@),
                    forall|j: int| 0 <= j < i ==> header.deep_view()[j] != name@,
                decreases header@.len() - i,
            {
                if str_eq(header[i].as_str(), name) {
                    proof {
                        assert(header.deep_view()[i as int] == name@);
                        lemma_name_col_found(header.deep_view(), name@, i as int);
                    }
                    return Ok(i);
                }
                proof {
                    assert(header.deep_view()[i as int] == header@[i as int]@);
                }
                i = i + 1;
            }
            proof {
                lemma_name_col_missing(header.deep_view(), name@);
            }
            Err(TableError::ColumnNotFound)
        },
    }
}

/// The last-write-wins map from gene identifier to absolute stats row
/// position built by one forward scan over the stats data rows.
pub open spec fn gene_map(stats: Seq<Seq<Seq<char>>>, col: int) -> Map<Seq<char>, int>
    decreases stats.len(),
{
    if stats.len() <= 1 {
        Map::empty()
    } else {
        gene_map(stats.drop_last(), col).insert(stats.last()[col], stats.len() - 1)
    }
}

spec fn entries_map(entries: Seq<(String, usize)>) -> Map<Seq<char>, int>
    decreases entries.len(),
{
    if entries.len() == 0 {
        Map::empty()
    } else {
        entries_map(entries.drop_last()).insert(entries.last().0@, entries.last().1 as int)
    }
}

/// The gene-identifier index of a stats table: identifier to the position
/// of the last stats row that carries it.
pub struct GeneIndex {
    entries: Vec<(String, usize)>,
}

impl View for GeneIndex {
    type V = Map<Seq<char>, int>;

    closed spec fn view(&self) -> Map<Seq<char>, int> {
        entries_map(self.entries@)
    }
}

impl GeneIndex {
    /// Every indexed position names a stats row below this bound.
    pub closed spec fn positions_below(&self, n: int) -> bool {
        forall|i: int|
            0 <= i < self.entries@.len() ==> 0 < (#[trigger] self.entries@[i]).1 < n
    }

    /// Scan the stats data rows and build the index. Fails exactly when
    /// some data row is too short to carry the key column.
    pub fn build(stats: &Vec<Vec<String>>, col: usize) -> (r: Result<GeneIndex, TableError>)
        requires
            stats@.len() >= 1,
        ensures
            match r {
                Ok(ix) => {
                    &&& ix@ == gene_map(stats.deep_view(), col as int)
                    &&& ix.positions_below(stats@.len() as int)
                    &&& forall|i: int|
                        1 <= i < stats@.len() ==> (#[trigger] stats.deep_view()[i]).len() > col
                },
                Err(e) => {
                    &&& e == TableError::InsufficientColumns
                    &&& exists|i: int|
                        1 <= i < stats@.len() && (#[trigger] stats.deep_view()[i]).len() <= col
                },
            },
    {
        let ghost sdv = stats.deep_view();
        let mut entries: Vec<(String, usize)> = Vec::new();
        let mut r: usize = 1;
        proof {
            assert(entries_map(entries@) =~~= gene_map(sdv.take(1), col as int));
        }
        while r < stats.len()
            invariant
                1 <= r <= stats@.len(),
                sdv == stats.deep_view(),
                entries_map(entries@) == gene_map(sdv.take(r as int), col as int),
                forall|i: int| 0 <= i < entries@.len() ==> 0 < (#[trigger] entries@[i]).1 < r,
                forall|i: int| 1 <= i < r ==> (#[trigger] sdv[i]).len() > col,
            decreases stats@.len() - r,
        {
            let row = &stats[r];
            if row.len() <= col {
                proof {
                    assert(sdv[r as int].len() <= col);
                }
                return Err(TableError::InsufficientColumns);
            }
            let key = row[col].clone();
            let ghost edv = entries@;
            entries.push((key, r));
            proof {
                assert(entries@ =~= edv.push((key, r)));
                assert(entries@.drop_last() =~= edv);
                assert(sdv.take(r + 1).drop_last() =~= sdv.take(r as int));
                assert(sdv.take(r + 1).last()[col as int] == key@);
                assert(entries_map(entries@) == gene_map(sdv.take(r + 1), col as int));
            }
            r = r + 1;
        }
        proof {
            assert(sdv.take(stats@.len() as int) =~= sdv);
        }
        Ok(GeneIndex { entries })
    }

    /// Look a gene identifier up: the position of the last stats row whose
    /// key column carries it, if any does.
    pub fn lookup(&self, key: &str) -> (r: Option<usize>)
        ensures
            match r {
                Some(p) => self@.contains_key(key@) && p as int == self@[key@],
                None => !self@.contains_key(key@),
            },
    {
        let ghost full = self.entries@;
        let mut i: usize = self.entries.len();
        proof {
            assert(full.take(i as int) =~= full);
        }
        while i > 0
            invariant
                0 <= i <= self.entries@.len(),
                full == self.entries@,
                entries_map(full).contains_key(key@) == entries_map(full.take(i as int)).contains_key(
                    key@,
                ),
                entries_map(full).contains_key(key@) ==> entries_map(full)[key@] == entries_map(
                    full.take(i as int),
                )[key@],
            decreases i,
        {
            i = i - 1;
            proof {
                assert(full.take(i + 1).drop_last() =~= full.take(i as int));
                assert(full.take(i + 1).last() == full[i as int]);
            }
            if str_eq(self.entries[i].0.as_str(), key) {
                return Some(self.entries[i].1);
            }
        }
        proof {
            assert(full.take(0) =~= Seq::<(String, usize)>::empty());
        }
        None
    }
}

// ---------------------------------------------------------------------------
// merging
// ---------------------------------------------------------------------------
/// A run of `na` padding fields.
pub open spec fn na_row(n: int) -> Seq<Seq<char>> {
    Seq::new(n as nat, |i: int| "na"@)
}

/// `na` padding fields for the columns of an unmatched stats row.
pub fn na_fields(n: usize) -> (r: Vec<String>)
    ensures
        r.deep_view() == na_row(n as int),
{
    let mut out: Vec<String> = Vec::new();
    let mut i: usize = 0;
    while i < n
        invariant
            0 <= i <= n,
            out.deep_view() =~~= na_row(i as int),
        decreases n - i,
    {
        let ghost dv = out.deep_view();
        out.push("na".to_owned());
        proof {
            assert(out.deep_view() =~= dv.push("na"@));
            assert(out.deep_view() =~~= na_row(i + 1));
        }
        i = i + 1;
    }
    proof {
        assert(out.deep_view() =~~= na_row(n as int));
    }
    out
}

/// One row of fields followed by another.
pub fn concat_fields(a: &Vec<String>, b: &Vec<String>) -> (r: Vec<String>)
    ensures
        r.deep_view() == a.deep_view() + b.deep_view(),
{
    let mut out: Vec<String> = Vec::new();
    let mut i: usize = 0;
    while i < a.len()
        invariant
            0 <= i <= a@.len(),
            out.deep_view() =~~= a.deep_view().take(i as int),
        decreases a@.len() - i,
    {
        let ghost dv = out.deep_view();
        out.push(a[i].clone());
        proof {
            assert(out.deep_view() =~= dv.push(a.deep_view()[i as int]));
            assert(out.deep_view() =~~= a.deep_view().take(i + 1));
        }
        i = i + 1;
    }
    let mut j: usize = 0;
    while j < b.len()
        invariant
            0 <= j <= b@.len(),
            out.deep_view() =~~= a.deep_view() + b.deep_view().take(j as int),
        decreases b@.len() - j,
    {
        let ghost dv = out.deep_view();
        out.push(b[j].clone());
        proof {
            assert(out.deep_view() =~= dv.push(b.deep_view()[j as int]));
            assert(out.deep_view() =~~= a.deep_view() + b.deep_view().take(j + 1));
        }
        j = j + 1;
    }
    proof {
        assert(a.deep_view().take(a@.len() as int) =~= a.deep_view());
        assert(b.deep_view().take(b@.len() as int) =~= b.deep_view());
        assert(out.deep_view() =~~= a.deep_view() + b.deep_view());
    }
    out
}

/// Merge one primary row with one stats (or padding) row into an output
/// line: the fields of both, joined by tabs.
pub fn merge_rows(main_row: &Vec<String>, stats_row: &Vec<String>) -> (r: String)
    ensures
        r@ == join_with(main_row.deep_view() + stats_row.deep_view(), '\t'),
{
    let combined = concat_fields(main_row, stats_row);
    crate::text::join_tab(&combined)
}

/// Header fields, each prefixed with the stats file name and an underscore.
pub open spec fn prefixed(fields: Seq<Seq<char>>, addon: Seq<char>) -> Seq<Seq<char>> {
    fields.map_values(|f: Seq<char>| addon + "_"@ + f)
}

/// Prefix every field with `addon` and an underscore.
pub fn prefix_fields(fields: &Vec<String>, addon: &str) -> (r: Vec<String>)
    ensures
        r.deep_view() == prefixed(fields.deep_view(), addon@),
{
    let mut out: Vec<String> = Vec::new();
    let mut i: usize = 0;
    while i < fields.len()
        invariant
            0 <= i <= fields@.len(),
            out.deep_view() =~~= prefixed(fields.deep_view(), addon@).take(i as int),
        decreases fields@.len() - i,
    {
        let mut f = String::from_str(addon);
        f.append("_");
        f.append(fields[i].as_str());
        let ghost dv = out.deep_view();
        proof {
            reveal_strlit("_");
        }
        out.push(f);
        proof {
            assert(out.deep_view() =~= dv.push(f@));
            assert(f@ =~= addon@ + "_"@ + fields.deep_view()[i as int]);
            assert(out.deep_view() =~~= prefixed(fields.deep_view(), addon@).take(i + 1));
        }
        i = i + 1;
    }
    proof {
        assert(out.deep_view() =~~= prefixed(fields.deep_view(), addon@));
    }
    out
}

/// The merged header: the primary header, a tab, and the stats header with
/// every field prefixed by the stats file's basename.
pub open spec fn merged_header(ph: Seq<Seq<char>>, sh: Seq<Seq<char>>, addon: Seq<char>) -> Seq<
    char,
> {
    join_with(ph, '\t') + seq!['\t'] + join_with(prefixed(sh, addon), '\t')
}

/// Build the merged header line.
pub fn header_line(ph: &Vec<String>, sh: &Vec<String>, addon: &str) -> (r: String)
    ensures
        r@ == merged_header(ph.deep_view(), sh.deep_view(), addon@),
{
    let mut out = crate::text::join_tab(ph);
    out.append("\t");
    let pre = prefix_fields(sh, addon);
    out.append(crate::text::join_tab(&pre).as_str());
    proof {
        reveal_strlit("\t");
        assert(out@ =~= merged_header(ph.deep_view(), sh.deep_view(), addon@));
    }
    out
}

/// The output line for one primary data row: its fields followed by the
/// matched stats row where its key is indexed at a valid position, and by
/// `na` padding as wide as the stats header otherwise.
pub open spec fn merged_row(
    prow: Seq<Seq<char>>,
    stats: Seq<Seq<Seq<char>>>,
    gm: Map<Seq<char>, int>,
) -> Seq<char> {
    let key = prow[1];
    if gm.contains_key(key) && 0 <= gm[key] < stats.len() {
        join_with(prow + stats[gm[key]], '\t')
    } else {
        join_with(prow + na_row(stats[0].len() as int), '\t')
    }
}

/// What the join engine produces: the resolved key column or
/// `ColumnNotFound`; `InsufficientColumns` where a stats data row cannot
/// carry that column; otherwise the merged header followed by one merged
/// line per primary data row, in primary order.
pub open spec fn merge_result(
    primary: Seq<Seq<Seq<char>>>,
    stats: Seq<Seq<Seq<char>>>,
    col_arg: Seq<char>,
    addon: Seq<char>,
) -> Result<Seq<Seq<char>>, TableError> {
    match resolve_col(col_arg, stats[0]) {
        None => Err(TableError::ColumnNotFound),
        Some(c) => if exists|r: int| 1 <= r < stats.len() && (#[trigger] stats[r]).len() <= c {
            Err(TableError::InsufficientColumns)
        } else if primary.len() == 0 {
            Ok(Seq::empty())
        } else {
            Ok(
                seq![merged_header(primary[0], stats[0], addon)] + Seq::new(
                    (primary.len() - 1) as nat,
                    |i: int| merged_row(primary[i + 1], stats, gene_map(stats, c)),
                ),
            )
        },
    }
}

/// Left-join the primary table against the stats table on the key column
/// that `gene_col` selects, producing the merged output lines.
pub fn merge_tables(
    primary: &Vec<Vec<String>>,
    stats: &Vec<Vec<String>>,
    gene_col: &str,
    addon: &str,
) -> (r: Result<Vec<String>, TableError>)
    requires
        stats@.len() >= 1,
        forall|i: int| 1 <= i < primary@.len() ==> (#[trigger] primary.deep_view()[i]).len() >= 2,
    ensures
        match r {
            Ok(lines) => merge_result(primary.deep_view(), stats.deep_view(), gene_col@, addon@)
                == Ok::<Seq<Seq<char>>, TableError>(lines.deep_view()),
            Err(e) => merge_result(primary.deep_view(), stats.deep_view(), gene_col@, addon@)
                == Err::<Seq<Seq<char>>, TableError>(e),
        },
{
    let ghost pdv = primary.deep_view();
    let ghost sdv = stats.deep_view();
    proof {
        assert(sdv[0] == stats@[0].deep_view());
    }
    let col = match resolve_key_column(gene_col, &stats[0]) {
        Ok(c) => c,
        Err(e) => {
            return Err(e);
        },
    };
    let ix = match GeneIndex::build(stats, col) {
        Ok(ix) => ix,
        Err(e) => {
            return Err(e);
        },
    };
    let ghost gm = gene_map(sdv, col as int);
    let mut out: Vec<String> = Vec::new();
    if primary.len() == 0 {
        proof {
            assert(out.deep_view() =~~= Seq::<Seq<char>>::empty());
        }
        return Ok(out);
    }
    let hdr = header_line(&primary[0], &stats[0], addon);
    proof {
        assert(pdv[0] == primary@[0].deep_view());
    }
    out.push(hdr);
    let ghost expected = seq![merged_header(pdv[0], sdv[0], addon@)] + Seq::new(
        (pdv.len() - 1) as nat,
        |i: int| merged_row(pdv[i + 1], sdv, gm),
    );
    proof {
        assert(out.deep_view() =~~= expected.take(1));
    }
    let mut i: usize = 1;
    while i < primary.len()
        invariant
            1 <= i <= primary@.len(),
            pdv == primary.deep_view(),
            sdv == stats.deep_view(),
            sdv.len() >= 1,
            forall|k: int| 1 <= k < pdv.len() ==> (#[trigger] pdv[k]).len() >= 2,
            ix@ == gm,
            gm == gene_map(sdv, col as int),
            expected == seq![merged_header(pdv[0], sdv[0], addon@)] + Seq::new(
                (pdv.len() - 1) as nat,
                |k: int| merged_row(pdv[k + 1], sdv, gm),
            ),
            out.deep_view() =~~= expected.take(i as int),
        decreases primary@.len() - i,
    {
        let prow = &primary[i];
        proof {
            assert(pdv[i as int] == primary@[i as int].deep_view());
            assert(pdv[i as int][1] == primary@[i as int]@[1]@);
        }
        let line = match ix.lookup(prow[1].as_str()) {
            Some(p) => {
                if p < stats.len() {
                    proof {
                        assert(sdv[p as int] == stats@[p as int].deep_view());
                    }
                    merge_rows(prow, &stats[p])
                } else {
                    let nav = na_fields(stats[0].len());
                    proof {
                        assert(sdv[0] == stats@[0].deep_view());
                    }
                    merge_rows(prow, &nav)
                }
            },
            None => {
                let nav = na_fields(stats[0].len());
                proof {
                    assert(sdv[0] == stats@[0].deep_view());
                }
                merge_rows(prow, &nav)
            },
        };
        proof {
            assert(line@ == merged_row(pdv[i as int], sdv, gm));
            assert(expected[i as int] == merged_row(pdv[i as int], sdv, gm));
        }
        let ghost dv = out.deep_view();
        out.push(line);
        proof {
            assert(out.deep_view() =~= dv.push(line@));
            assert(out.deep_view() =~~= expected.take(i + 1));
        }
        i = i + 1;
    }
    proof {
        assert(out.deep_view() =~~= expected);
        assert(merge_result(pdv, sdv, gene_col@, addon@) == Ok::<Seq<Seq<char>>, TableError>(
            expected,
        ));
    }
    Ok(out)
}

/// Running the join engine twice on identical inputs produces identical
/// output: the merged table is a function of the two tables, the key
/// column argument and the header prefix alone.
pub proof fn lemma_join_deterministic(
    primary: Seq<Seq<Seq<char>>>,
    stats: Seq<Seq<Seq<char>>>,
    col_arg: Seq<char>,
    addon: Seq<char>,
    r1: Result<Seq<Seq<char>>, TableError>,
    r2: Result<Seq<Seq<char>>, TableError>,
)
    requires
        r1 == merge_result(primary, stats, col_arg, addon),
        r2 == merge_result(primary, stats, col_arg, addon),
    ensures
        r1 == r2,
{
}

/// A table text from output lines: every line, the header included,
/// terminated by a newline.
pub open spec fn rendered(lines: Seq<Seq<char>>) -> Seq<char>
    decreases lines.len(),
{
    if lines.len() == 0 {
        Seq::empty()
    } else {
        rendered(lines.drop_last()) + lines.last() + seq!['\n']
    }
}

/// Render output lines as one text, each line newline-terminated.
pub fn render_lines(lines: &Vec<String>) -> (r: String)
    ensures
        r@ == rendered(lines.deep_view()),
{
    let mut out = String::new();
    let mut i: usize = 0;
    proof {
        assert(out@ =~= rendered(lines.deep_view().take(0)));
    }
    while i < lines.len()
        invariant
            0 <= i <= lines@.len(),
            out@ == rendered(lines.deep_view().take(i as int)),
        decreases lines@.len() - i,
    {
        out.append(lines[i].as_str());
        out.append("\n");
        proof {
            reveal_strlit("\n");
            let dv = lines.deep_view();
            assert(dv.take(i + 1).drop_last() =~= dv.take(i as int));
            assert(dv.take(i + 1).last() == dv[i as int]);
            assert(out@ =~= rendered(dv.take(i + 1)));
        }
        i = i + 1;
    }
    proof {
        assert(lines.deep_view().take(lines@.len() as int) =~= lines.deep_view());
    }
    out
}

// ---------------------------------------------------------------------------
// paths
// ---------------------------------------------------------------------------
/// Index of the last path separator, or -1 where there is none.
pub open spec fn last_slash(p: Seq<char>) -> int
    decreases p.len(),
{
    if p.len() == 0 {
        -1
    } else if p.last() == '/' {
        p.len() - 1
    } else {
        last_slash(p.drop_last())
    }
}

/// The basename of a path: everything after its last separator.
pub open spec fn basename_of(p: Seq<char>) -> Seq<char> {
    p.skip(last_slash(p) + 1)
}

proof fn lemma_last_slash_at(p: Seq<char>, j: int)
    requires
        0 <= j < p.len(),
        p[j] == '/',
        forall|k: int| j < k < p.len() ==> p[k] != '/',
    ensures
        last_slash(p) == j,
    decreases p.len(),
{
    if j < p.len() - 1 {
        lemma_last_slash_at(p.drop_last(), j);
    }
}

proof fn lemma_last_slash_none(p: Seq<char>)
    requires
        forall|k: int| 0 <= k < p.len() ==> p[k] != '/',
    ensures
        last_slash(p) == -1,
    decreases p.len(),
{
    if p.len() > 0 {
        lemma_last_slash_none(p.drop_last());
    }
}

/// The file name a path names, extension and all: the suffix after the
/// last path separator.
pub fn file_basename(path: &str) -> (r: String)
    ensures
        r@ == basename_of(path@),
{
    let n = path.unicode_len();
    let mut i: usize = n;
    while i > 0
        invariant
            0 <= i <= n,
            n == path@.len(),
            forall|k: int| i <= k < n ==> path@[k] != '/',
        decreases i,
    {
        if path.get_char(i - 1) == '/' {
            proof {
                lemma_last_slash_at(path@, i - 1);
            }
            let r = path.substring_char(i, n).to_owned();
            proof {
                assert(r@ =~= basename_of(path@));
            }
            return r;
        }
        i = i - 1;
    }
    proof {
        lemma_last_slash_none(path@);
        assert(path@.skip(0) =~= path@);
    }
    path.to_owned()
}

} // verus!
