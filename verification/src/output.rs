//! The textual forms of a run's results: column labels, CSV rows and swatch lists.

use crate::color::{hex_text, to_hex, Rgb};
use crate::region::{Region, RegionModel};
use crate::text::{decimal_digits, decimal_string};
use vstd::prelude::*;

verus! {

/// The views of a sequence of strings.
pub open spec fn texts(v: Seq<String>) -> Seq<Seq<char>> {
    Seq::new(v.len(), |i: int| v[i]@)
}

/// The views of a sequence of regions.
pub open spec fn models(v: Seq<Region>) -> Seq<RegionModel> {
    Seq::new(v.len(), |i: int| v[i]@)
}

/// The parts in order, with `sep` between each two neighbours.
pub open spec fn joined(parts: Seq<Seq<char>>, sep: Seq<char>) -> Seq<char>
    decreases parts.len(),
{
    if parts.len() == 0 {
        Seq::empty()
    } else if parts.len() == 1 {
        parts[0]
    } else {
        joined(parts.drop_last(), sep) + sep + parts.last()
    }
}

/// How many of the first `i` regions have no label.
pub open spec fn unlabelled_before(regions: Seq<RegionModel>, i: int) -> nat
    decreases i,
{
    if i <= 0 {
        0
    } else {
        unlabelled_before(regions, i - 1) + if regions[i - 1].label is None {
            1nat
        } else {
            0nat
        }
    }
}

/// The column label of region `i`: its own label, or `Unlabelled N` where it
/// is the N-th region without one.
pub open spec fn column_label(regions: Seq<RegionModel>, i: int) -> Seq<char> {
    match regions[i].label {
        Some(l) => l,
        None => "Unlabelled "@ + decimal_digits(unlabelled_before(regions, i) + 1),
    }
}

/// The column labels of all regions, in order.
pub open spec fn column_labels_spec(regions: Seq<RegionModel>) -> Seq<Seq<char>> {
    Seq::new(regions.len(), |i: int| column_label(regions, i))
}

/// The hex texts of a row of colors, in order.
pub open spec fn hex_texts(colors: Seq<Rgb>) -> Seq<Seq<char>> {
    Seq::new(colors.len(), |i: int| hex_text(colors[i]))
}

/// Joins `parts` with `sep` between them.
pub fn join(parts: &Vec<String>, sep: &str) -> (s: String)
    ensures
        s@ == joined(texts(parts@), sep@),
{
    let ghost all = texts(parts@);
    let mut s = String::new();
    let mut i: usize = 0;
    while i < parts.len()
        invariant
            i <= parts.len(),
            all == texts(parts@),
            s@ == joined(all.subrange(0, i as int), sep@),
        decreases parts.len() - i,
    {
        if i > 0 {
            s.append(sep);
        }
        s.append(parts[i].as_str());
        proof {
            let cur = all.subrange(0, i + 1);
            assert(cur.drop_last() =~= all.subrange(0, i as int));
            assert(cur.last() == parts@[i as int]@);
            if i == 0 {
                assert(s@ =~= cur[0]);
            }
        }
        i += 1;
    }
    assert(all.subrange(0, i as int) =~= all);
    s
}

/// The column label of each region: its own, or a numbered placeholder. Only
/// the regions without a label are counted, from one.
pub fn column_labels(regions: &Vec<Region>) -> (labels: Vec<String>)
    ensures
        texts(labels@) == column_labels_spec(models(regions@)),
{
    let ghost ms = models(regions@);
    let mut labels: Vec<String> = Vec::new();
    let mut seen: usize = 0;
    let mut i: usize = 0;
    while i < regions.len()
        invariant
            i <= regions.len(),
            ms == models(regions@),
            seen == unlabelled_before(ms, i as int),
            seen <= i,
            labels.len() == i,
            forall|j: int| 0 <= j < i ==> (#[trigger] labels[j])@ == column_label(ms, j),
        decreases regions.len() - i,
    {
        let label = match &regions[i].label {
            Some(l) => l.clone(),
            None => {
                seen += 1;
                let mut t = "Unlabelled ".to_owned();
                let n = decimal_string(seen as u64);
                t.append(n.as_str());
                t
            },
        };
        assert(ms[i as int] == regions@[i as int]@);
        assert(label@ == column_label(ms, i as int));
        labels.push(label);
        i += 1;
    }
    assert(texts(labels@) =~= column_labels_spec(ms));
    labels
}

/// The header row of the CSV form: the column labels, separated by commas.
pub fn csv_header(regions: &Vec<Region>) -> (s: String)
    ensures
        s@ == joined(column_labels_spec(models(regions@)), ","@),
{
    let labels = column_labels(regions);
    join(&labels, ",")
}

/// The hex texts of `colors`, in order, with `sep` between them.
pub fn hex_row(colors: &Vec<Rgb>, sep: &str) -> (s: String)
    ensures
        s@ == joined(hex_texts(colors@), sep@),
{
    let mut parts: Vec<String> = Vec::new();
    let mut i: usize = 0;
    while i < colors.len()
        invariant
            i <= colors.len(),
            parts.len() == i,
            forall|j: int| 0 <= j < i ==> (#[trigger] parts[j])@ == hex_text(colors@[j]),
        decreases colors.len() - i,
    {
        parts.push(to_hex(&colors[i]));
        i += 1;
    }
    assert(texts(parts@) =~= hex_texts(colors@));
    join(&parts, sep)
}

/// One file's row of the CSV form: its colors, separated by commas.
pub fn csv_row(colors: &Vec<Rgb>) -> (s: String)
    ensures
        s@ == joined(hex_texts(colors@), ","@),
{
    hex_row(colors, ",")
}

} // verus!
