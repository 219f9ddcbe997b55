//! BED interval records and the fully materialized BED loader: tab-separated
//! lines become `{sequence id, start, end}` records, comment lines are
//! skipped, and iteration afterwards is a single forward pass.
use vstd::prelude::*;
use crate::text::is_number;
use crate::text::number_val;
use crate::text::udigits;
use crate::text::split_on;
use crate::text::lines_of;
use crate::text::split_str;
use crate::text::split_lines;
use crate::text::parse_usize;
use crate::text::u64_string;

verus! {

/// One genomic interval: a sequence id with start and end coordinates.
#[derive(Debug, Clone)]
pub struct BedEntry {
    pub chr: String,
    pub start: usize,
    pub end: usize,
}

/// The mathematical image of a `BedEntry`.
pub ghost struct BedEntryView {
    pub chr: Seq<char>,
    pub start: int,
    pub end: int,
}

impl View for BedEntry {
    type V = BedEntryView;

    open spec fn view(&self) -> BedEntryView {
        BedEntryView { chr: self.chr@, start: self.start as int, end: self.end as int }
    }
}

impl DeepView for BedEntry {
    type V = BedEntryView;

    open spec fn deep_view(&self) -> BedEntryView {
        self.view()
    }
}

/// The record a row of fields denotes: at least three fields, the second
/// and third a decimal number that fits the machine word.
pub open spec fn entry_of_fields(f: Seq<Seq<char>>) -> Option<BedEntryView> {
    if f.len() < 3 {
        None
    } else if !(is_number(f[1]) && number_val(f[1]) <= usize::MAX) {
        None
    } else if !(is_number(f[2]) && number_val(f[2]) <= usize::MAX) {
        None
    } else {
        Some(BedEntryView { chr: f[0], start: number_val(f[1]), end: number_val(f[2]) })
    }
}

/// The message with which a row of fields is rejected.
pub open spec fn from_vec_error(f: Seq<Seq<char>>) -> Seq<char> {
    if f.len() < 3 {
        "Input vector must contain at least 3 elements."@
    } else if !(is_number(f[1]) && number_val(f[1]) <= usize::MAX) {
        "Invalid start value"@
    } else {
        "Invalid end value"@
    }
}

/// The display form of an interval: `sequence:start-end`.
pub open spec fn entry_display(e: BedEntryView) -> Seq<char> {
    e.chr + seq![':'] + udigits(e.start as nat) + seq!['-'] + udigits(e.end as nat)
}

impl BedEntry {
    /// Build an interval record from a row of string fields.
    pub fn from_vec(vec: Vec<&str>) -> (r: Result<Self, &'static str>)
        ensures
            match r {
                Ok(e) => entry_of_fields(vec.deep_view()) == Some(e@),
                Err(m) => entry_of_fields(vec.deep_view()) is None && m@ == from_vec_error(
                    vec.deep_view(),
                ),
            },
    {
        if vec.len() < 3 {
            return Err("Input vector must contain at least 3 elements.");
        }
        let chr = vec[0].to_owned();
        let start = match parse_usize(vec[1]) {
            Some(n) => n,
            None => {
                return Err("Invalid start value");
            },
        };
        let end = match parse_usize(vec[2]) {
            Some(n) => n,
            None => {
                return Err("Invalid end value");
            },
        };
        let e = BedEntry { chr, start, end };
        proof {
            assert(vec.deep_view()[0] == vec@[0]@);
            assert(vec.deep_view()[1] == vec@[1]@);
            assert(vec.deep_view()[2] == vec@[2]@);
        }
        Ok(e)
    }

    /// Render the interval as `sequence:start-end`.
    pub fn as_string(&self) -> (r: String)
        ensures
            r@ == entry_display(self@),
    {
        let mut s = self.chr.clone();
        s.append(":");
        s.append(u64_string(self.start as u64).as_str());
        s.append("-");
        s.append(u64_string(self.end as u64).as_str());
        proof {
            reveal_strlit(":");
            reveal_strlit("-");
            assert(s@ =~= entry_display(self@));
        }
        s
    }
}

/// A comment line of a BED file.
pub open spec fn is_comment(l: Seq<char>) -> bool {
    l.len() > 0 && l[0] == '#'
}

/// The data lines of a BED text: its lines without the comment lines.
pub open spec fn bed_records(content: Seq<char>) -> Seq<Seq<char>> {
    lines_of(content).filter(|l: Seq<char>| !is_comment(l))
}

/// The record denoted by one data line: its tab-separated fields parsed.
pub open spec fn line_entry(l: Seq<char>) -> Option<BedEntryView> {
    entry_of_fields(split_on(l, '\t'))
}

/// The fully materialized, insertion-ordered sequence of interval records
/// loaded from one BED text, with a forward, non-restartable cursor.
#[derive(Debug)]
pub struct BedFile {
    data: Vec<BedEntry>,
    index: usize,
}

impl View for BedFile {
    type V = Seq<BedEntryView>;

    closed spec fn view(&self) -> Seq<BedEntryView> {
        self.data.deep_view()
    }
}

impl BedFile {
    /// Position of the forward cursor.
    pub closed spec fn cursor(&self) -> int {
        self.index as int
    }

    /// Load every record of a BED text. Comment lines are skipped; any
    /// other line must carry at least three tab-separated fields with
    /// numeric start and end, or the whole load fails with the message
    /// for the first offending line.
    pub fn new(content: &str) -> (r: Result<Self, String>)
        ensures
            (r is Ok) <==> (forall|i: int|
                0 <= i < bed_records(content@).len() ==> line_entry(
                    #[trigger] bed_records(content@)[i],
                ) is Some),
            r matches Ok(bf) ==> {
                &&& bf@.len() == bed_records(content@).len()
                &&& forall|i: int|
                    0 <= i < bf@.len() ==> line_entry(bed_records(content@)[i]) == Some(
                        #[trigger] bf@[i],
                    )
                &&& bf.cursor() == 0
            },
            r matches Err(m) ==> exists|i: int|
                {
                    &&& 0 <= i < bed_records(content@).len()
                    &&& line_entry(#[trigger] bed_records(content@)[i]) is None
                    &&& forall|k: int| 0 <= k < i ==> line_entry(bed_records(content@)[k]) is Some
                    &&& m@ == from_vec_error(split_on(bed_records(content@)[i], '\t'))
                },
    {
        let lines = split_lines(content);
        let mut data: Vec<BedEntry> = Vec::new();
        let ghost pred = |l: Seq<char>| !is_comment(l);
        let ghost all = lines_of(content@);
        let mut j: usize = 0;
        proof {
            reveal(Seq::filter);
            assert(all.take(0) =~= Seq::<Seq<char>>::empty());
        }
        while j < lines.len()
            invariant
                0 <= j <= lines@.len(),
                lines.deep_view() == lines_of(content@),
                all == lines_of(content@),
                pred == (|l: Seq<char>| !is_comment(l)),
                data.deep_view().len() == all.take(j as int).filter(pred).len(),
                forall|k: int|
                    0 <= k < data.deep_view().len() ==> line_entry(
                        all.take(j as int).filter(pred)[k],
                    ) == Some(#[trigger] data.deep_view()[k]),
            decreases lines@.len() - j,
        {
            let line = &lines[j];
            let ghost recs = all.take(j as int).filter(pred);
            proof {
                reveal(Seq::filter);
                assert(all.take(j + 1).drop_last() =~= all.take(j as int));
                assert(all.take(j + 1).last() == all[j as int]);
            }
            let ll = line.as_str().unicode_len();
            let is_com = ll > 0 && line.as_str().get_char(0) == '#';
            proof {
                assert(is_com == is_comment(all[j as int]));
            }
            if !is_com {
                let fields = split_str(line.as_str(), '\t');
                let refs = as_str_refs(&fields);
                proof {
                    assert(lines.deep_view()[j as int] == lines@[j as int]@);
                    assert(fields.deep_view() == split_on(all[j as int], '\t'));
                }
                match BedEntry::from_vec(refs) {
                    Ok(e) => {
                        let ghost dv = data.deep_view();
                        data.push(e);
                        proof {
                            assert(data.deep_view() =~= dv.push(e@));
                            assert(all.take(j + 1).filter(pred) =~= recs.push(all[j as int]));
                        }
                    },
                    Err(m) => {
                        let out = m.to_owned();
                        proof {
                            reveal(Seq::filter);
                            assert(all.take(j + 1).filter(pred) =~= recs.push(all[j as int]));
                            assert(all =~= all.take(j + 1) + all.skip(j + 1));
                            Seq::filter_distributes_over_add(
                                all.take(j + 1),
                                all.skip(j + 1),
                                pred,
                            );
                            assert(bed_records(content@) == all.filter(pred));
                            assert(all.filter(pred) == all.take(j + 1).filter(pred) + all.skip(
                                j + 1,
                            ).filter(pred));
                            let w = recs.len() as int;
                            assert(0 <= w < bed_records(content@).len());
                            assert(bed_records(content@)[w] == all[j as int]);
                            assert(line_entry(bed_records(content@)[w]) is None);
                            assert(forall|k: int|
                                0 <= k < w ==> bed_records(content@)[k] == recs[k]);
                            assert(forall|k: int|
                                0 <= k < w ==> line_entry(#[trigger] bed_records(content@)[k])
                                    == Some(data.deep_view()[k]));
                            assert(out@ == from_vec_error(split_on(bed_records(content@)[w], '\t')));
                            assert({
                                &&& 0 <= w < bed_records(content@).len()
                                &&& line_entry(bed_records(content@)[w]) is None
                                &&& forall|k: int|
                                    0 <= k < w ==> line_entry(bed_records(content@)[k]) is Some
                                &&& out@ == from_vec_error(split_on(bed_records(content@)[w], '\t'))
                            });
                        }
                        return Err(out);
                    },
                }
            } else {
                proof {
                    reveal(Seq::filter);
                    assert(all.take(j + 1).filter(pred) =~= recs);
                }
            }
            j = j + 1;
        }
        proof {
            reveal(Seq::filter);
            assert(all.take(lines@.len() as int) =~= all);
            assert(bed_records(content@) == all.filter(pred));
            assert(forall|i: int|
                0 <= i < bed_records(content@).len() ==> line_entry(
                    #[trigger] bed_records(content@)[i],
                ) == Some(data.deep_view()[i]));
        }
        Ok(BedFile { data, index: 0 })
    }

    /// Number of loaded records.
    pub fn len(&self) -> (r: usize)
        ensures
            r == self@.len(),
    {
        self.data.len()
    }

    /// Hand out the record under the cursor and advance it; after the last
    /// record the cursor stays put and nothing more is handed out.
    pub fn next(&mut self) -> (r: Option<BedEntry>)
        ensures
            final(self)@ == old(self)@,
            old(self).cursor() < old(self)@.len() ==> {
                &&& r matches Some(e) && e@ == old(self)@[old(self).cursor()]
                &&& final(self).cursor() == old(self).cursor() + 1
            },
            old(self).cursor() >= old(self)@.len() ==> r is None && final(self).cursor() == old(
                self,
            ).cursor(),
    {
        if self.index < self.data.len() {
            let e = &self.data[self.index];
            let out = BedEntry { chr: e.chr.clone(), start: e.start, end: e.end };
            self.index = self.index + 1;
            Some(out)
        } else {
            None
        }
    }
}

/// The string slices behind a vector of owned strings.
fn as_str_refs(v: &Vec<String>) -> (r: Vec<&str>)
    ensures
        r.deep_view() == v.deep_view(),
{
    let mut out: Vec<&str> = Vec::new();
    let mut i: usize = 0;
    while i < v.len()
        invariant
            0 <= i <= v@.len(),
            out.deep_view() =~~= v.deep_view().take(i as int),
        decreases v@.len() - i,
    {
        let ghost dv = out.deep_view();
        out.push(v[i].as_str());
        proof {
            assert(out.deep_view() =~= dv.push(v@[i as int]@));
            assert(out.deep_view() =~~= v.deep_view().take(i + 1));
        }
        i = i + 1;
    }
    proof {
        assert(v.deep_view().take(v@.len() as int) =~= v.deep_view());
        assert(out.deep_view() =~~= v.deep_view());
    }
    out
}

} // verus!
