//! The gene-distance annotator: pads each BED interval into a query
//! window, asks an annotation source for the genes it intersects, and
//! emits one output line per returned gene with a signed distance from
//! the interval's midpoint to the gene's start.
use vstd::prelude::*;
use crate::bed::BedEntry;
use crate::bed::BedEntryView;
use crate::bed::entry_display;
use crate::text::udigits;
use crate::text::idigits;
use crate::text::u64_string;
use crate::text::i64_string;

verus! {

/// One gene returned by an annotation query.
#[derive(Debug, Clone)]
pub struct Gene {
    pub gene_name: String,
    pub start: usize,
    pub end: usize,
}

/// The mathematical image of a `Gene`.
pub ghost struct GeneView {
    pub gene_name: Seq<char>,
    pub start: int,
    pub end: int,
}

impl View for Gene {
    type V = GeneView;

    open spec fn view(&self) -> GeneView {
        GeneView { gene_name: self.gene_name@, start: self.start as int, end: self.end as int }
    }
}

impl DeepView for Gene {
    type V = GeneView;

    open spec fn deep_view(&self) -> GeneView {
        self.view()
    }
}

/// Lower bound of a padded query window: the interval start moved left by
/// the padding, clamped at zero.
pub open spec fn window_lo(start: int, padding: int) -> int {
    if start >= padding {
        start - padding
    } else {
        0
    }
}

/// The padded query window around an interval: `[max(0, start - padding),
/// end + padding]`.
pub fn query_window(start: usize, end: usize, padding: usize) -> (r: (usize, usize))
    requires
        end + padding <= usize::MAX,
    ensures
        r.0 == window_lo(start as int, padding as int),
        r.1 == end + padding,
{
    let lo = if start >= padding {
        start - padding
    } else {
        0
    };
    (lo, end + padding)
}

/// Midpoint of an interval, by integer division.
pub open spec fn center_of(start: int, end: int) -> int {
    (start + end) / 2
}

/// The output line for one interval and one returned gene: the interval's
/// display form, the gene's name, the signed offset of the gene's start
/// from the interval midpoint, and the gene's coordinates.
pub open spec fn gene_row(e: BedEntryView, g: GeneView) -> Seq<char> {
    entry_display(e) + seq!['\t'] + g.gene_name + seq!['\t'] + idigits(
        center_of(e.start, e.end) - g.start,
    ) + seq!['\t'] + udigits(g.start as nat) + seq!['\t'] + udigits(g.end as nat)
}

/// Arithmetic room an interval needs: its midpoint must be computable and
/// signed distances from it must fit the machine's signed word.
pub open spec fn entry_in_range(e: BedEntryView) -> bool {
    e.start + e.end <= usize::MAX && center_of(e.start, e.end) <= i64::MAX
}

/// Coordinates small enough to take a signed distance from.
pub open spec fn gene_in_range(g: GeneView) -> bool {
    g.start <= i64::MAX
}

/// The output lines for one interval: one per returned gene, in query
/// order.
pub fn annotate_entry(entry: &BedEntry, genes: &Vec<Gene>) -> (r: Vec<String>)
    requires
        entry_in_range(entry@),
        forall|i: int| 0 <= i < genes@.len() ==> gene_in_range(#[trigger] genes.deep_view()[i]),
    ensures
        r.deep_view() == genes.deep_view().map_values(|g: GeneView| gene_row(entry@, g)),
{
    let display = entry.as_string();
    let center = (entry.start + entry.end) / 2;
    let mut out: Vec<String> = Vec::new();
    let mut i: usize = 0;
    while i < genes.len()
        invariant
            0 <= i <= genes@.len(),
            entry_in_range(entry@),
            forall|k: int| 0 <= k < genes@.len() ==> gene_in_range(#[trigger] genes.deep_view()[k]),
            display@ == entry_display(entry@),
            center == center_of(entry@.start, entry@.end),
            center <= i64::MAX,
            out.deep_view() =~~= genes.deep_view().map_values(
                |g: GeneView| gene_row(entry@, g),
            ).take(i as int),
        decreases genes@.len() - i,
    {
        let g = &genes[i];
        proof {
            assert(genes.deep_view()[i as int] == genes@[i as int]@);
            assert(gene_in_range(genes.deep_view()[i as int]));
        }
        let dist: i64 = (center as i64) - (g.start as i64);
        let mut line = display.clone();
        line.append("\t");
        line.append(g.gene_name.as_str());
        line.append("\t");
        line.append(i64_string(dist).as_str());
        line.append("\t");
        line.append(u64_string(g.start as u64).as_str());
        line.append("\t");
        line.append(u64_string(g.end as u64).as_str());
        proof {
            reveal_strlit("\t");
            assert(line@ =~= gene_row(entry@, genes.deep_view()[i as int]));
        }
        let ghost dv = out.deep_view();
        out.push(line);
        proof {
            assert(out.deep_view() =~= dv.push(line@));
            assert(out.deep_view() =~~= genes.deep_view().map_values(
                |gg: GeneView| gene_row(entry@, gg),
            ).take(i + 1));
        }
        i = i + 1;
    }
    proof {
        assert(out.deep_view() =~~= genes.deep_view().map_values(
            |g: GeneView| gene_row(entry@, g),
        ));
    }
    out
}

/// The output lines one interval contributes: none at all where its query
/// failed, one line per returned gene otherwise.
pub open spec fn entry_rows(e: BedEntryView, q: Option<Seq<GeneView>>) -> Seq<Seq<char>> {
    match q {
        Some(gs) => gs.map_values(|g: GeneView| gene_row(e, g)),
        None => Seq::empty(),
    }
}

/// The output lines of a whole run, interval by interval in load order.
pub open spec fn all_rows(es: Seq<BedEntryView>, qs: Seq<Option<Seq<GeneView>>>) -> Seq<Seq<char>>
    decreases es.len(),
{
    if es.len() == 0 {
        Seq::empty()
    } else {
        all_rows(es.drop_last(), qs.drop_last()) + entry_rows(es.last(), qs.last())
    }
}

/// Annotate every interval against its query outcome: a failed query
/// skips that interval and the run continues. Returns the output lines
/// and the count of emitted rows.
pub fn annotate_all(entries: &Vec<BedEntry>, results: &Vec<Option<Vec<Gene>>>) -> (r: (
    Vec<String>,
    usize,
))
    requires
        entries@.len() == results@.len(),
        forall|i: int| 0 <= i < entries@.len() ==> entry_in_range(#[trigger] entries.deep_view()[i]),
        forall|i: int, j: int|
            0 <= i < results@.len() && results.deep_view()[i] is Some && 0 <= j
                < results.deep_view()[i].unwrap().len() ==> gene_in_range(
                #[trigger] results.deep_view()[i].unwrap()[j],
            ),
    ensures
        r.0.deep_view() == all_rows(entries.deep_view(), results.deep_view()),
        r.1 == r.0@.len(),
{
    let mut out: Vec<String> = Vec::new();
    let mut i: usize = 0;
    let ghost edv = entries.deep_view();
    let ghost qdv = results.deep_view();
    proof {
        assert(all_rows(edv.take(0), qdv.take(0)) =~~= Seq::<Seq<char>>::empty());
    }
    while i < entries.len()
        invariant
            0 <= i <= entries@.len(),
            entries@.len() == results@.len(),
            edv == entries.deep_view(),
            qdv == results.deep_view(),
            forall|k: int| 0 <= k < edv.len() ==> entry_in_range(#[trigger] edv[k]),
            forall|k: int, j: int|
                0 <= k < qdv.len() && qdv[k] is Some && 0 <= j < qdv[k].unwrap().len()
                    ==> gene_in_range(#[trigger] qdv[k].unwrap()[j]),
            out.deep_view() =~~= all_rows(edv.take(i as int), qdv.take(i as int)),
        decreases entries@.len() - i,
    {
        let ghost dv = out.deep_view();
        proof {
            assert(edv.take(i + 1).drop_last() =~= edv.take(i as int));
            assert(qdv.take(i + 1).drop_last() =~= qdv.take(i as int));
            assert(edv[i as int] == entries@[i as int]@);
        }
        match &results[i] {
            Some(genes) => {
                proof {
                    assert(qdv[i as int] == Some(genes.deep_view()));
                    assert forall|k: int|
                        0 <= k < genes.deep_view().len() implies gene_in_range(
                        #[trigger] genes.deep_view()[k],
                    ) by {
                        assert(gene_in_range(qdv[i as int].unwrap()[k]));
                    };
                }
                let lines = annotate_entry(&entries[i], genes);
                let mut j: usize = 0;
                proof {
                    assert(entry_rows(edv[i as int], qdv[i as int]) == genes.deep_view().map_values(
                        |g: GeneView| gene_row(edv[i as int], g),
                    ));
                }
                while j < lines.len()
                    invariant
                        0 <= j <= lines@.len(),
                        lines.deep_view() == entry_rows(edv.take(i as int + 1).last(), qdv.take(
                            i as int + 1,
                        ).last()),
                        out.deep_view() =~~= all_rows(edv.take(i as int), qdv.take(i as int))
                            + lines.deep_view().take(j as int),
                        i < edv.len(),
                        edv.take(i as int + 1).drop_last() =~= edv.take(i as int),
                        qdv.take(i as int + 1).drop_last() =~= qdv.take(i as int),
                    decreases lines@.len() - j,
                {
                    let ghost dv2 = out.deep_view();
                    let line = lines[j].clone();
                    out.push(line);
                    proof {
                        assert(out.deep_view() =~= dv2.push(lines.deep_view()[j as int]));
                        assert(out.deep_view() =~~= all_rows(edv.take(i as int), qdv.take(i as int))
                            + lines.deep_view().take(j + 1));
                    }
                    j = j + 1;
                }
                proof {
                    assert(lines.deep_view().take(lines@.len() as int) =~= lines.deep_view());
                    assert(out.deep_view() =~~= all_rows(edv.take(i + 1), qdv.take(i + 1)));
                }
            },
            None => {
                proof {
                    assert(qdv[i as int] is None);
                    assert(entry_rows(edv.take(i + 1).last(), qdv.take(i + 1).last())
                        =~~= Seq::<Seq<char>>::empty());
                    assert(out.deep_view() =~~= all_rows(edv.take(i + 1), qdv.take(i + 1)));
                }
            },
        }
        i = i + 1;
    }
    proof {
        assert(edv.take(entries@.len() as int) =~= edv);
        assert(qdv.take(results@.len() as int) =~= qdv);
    }
    let count = out.len();
    (out, count)
}

/// What an interval query of the annotation source answers: every record
/// on the queried sequence whose coordinates intersect the closed window,
/// in record order.
pub open spec fn window_hits(
    gs: Seq<(Seq<char>, GeneView)>,
    chr: Seq<char>,
    lo: int,
    hi: int,
) -> Seq<GeneView>
    decreases gs.len(),
{
    if gs.len() == 0 {
        Seq::empty()
    } else {
        window_hits(gs.drop_last(), chr, lo, hi) + (if gs.last().0 == chr && gs.last().1.start
            <= hi && lo <= gs.last().1.end {
            seq![gs.last().1]
        } else {
            Seq::empty()
        })
    }
}

/// Answer an interval query over a materialized annotation table: the
/// genes recorded on `chr` that intersect `[lo, hi]`.
pub fn query_genes(records: &Vec<(String, Gene)>, chr: &str, lo: usize, hi: usize) -> (r: Vec<
    Gene,
>)
    ensures
        r.deep_view() == window_hits(records.deep_view(), chr@, lo as int, hi as int),
{
    let ghost rdv = records.deep_view();
    let mut out: Vec<Gene> = Vec::new();
    let mut i: usize = 0;
    proof {
        assert(out.deep_view() =~~= window_hits(rdv.take(0), chr@, lo as int, hi as int));
    }
    while i < records.len()
        invariant
            0 <= i <= records@.len(),
            rdv == records.deep_view(),
            out.deep_view() =~~= window_hits(rdv.take(i as int), chr@, lo as int, hi as int),
        decreases records@.len() - i,
    {
        let rec = &records[i];
        proof {
            assert(rdv.take(i + 1).drop_last() =~= rdv.take(i as int));
            assert(rdv[i as int] == (records@[i as int].0@, records@[i as int].1@));
        }
        let hit = crate::text::str_eq(rec.0.as_str(), chr) && rec.1.start <= hi && lo <= rec.1.end;
        if hit {
            let g = Gene {
                gene_name: rec.1.gene_name.clone(),
                start: rec.1.start,
                end: rec.1.end,
            };
            let ghost dv = out.deep_view();
            out.push(g);
            proof {
                assert(out.deep_view() =~= dv.push(rdv[i as int].1));
                assert(out.deep_view() =~~= window_hits(rdv.take(i + 1), chr@, lo as int, hi as int));
            }
        } else {
            proof {
                assert(out.deep_view() =~~= window_hits(rdv.take(i + 1), chr@, lo as int, hi as int));
            }
        }
        i = i + 1;
    }
    proof {
        assert(rdv.take(records@.len() as int) =~= rdv);
    }
    out
}

/// The fixed header line of the annotator's output table.
pub fn annotator_header() -> (r: String)
    ensures
        r@ == "bed_region\tgene_name\tdistance_to_bed_center\tstart\tend"@,
{
    String::from_str("bed_region\tgene_name\tdistance_to_bed_center\tstart\tend")
}

} // verus!
