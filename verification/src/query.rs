//! Query and grouping over book records: filtering by section, and
//! partitioning into per-section groups in first-seen order of the
//! distinct section labels.

use vstd::prelude::*;
use crate::book::{Book, BookView};
use crate::store::views_of;
use crate::text::str_eq;

verus! {

/// The records of `s` whose section is exactly `sec`, in their original
/// relative order. A record with no section never matches.
pub open spec fn in_section(s: Seq<BookView>, sec: Seq<char>) -> Seq<BookView>
    decreases s.len(),
{
    if s.len() == 0 {
        Seq::<BookView>::empty()
    } else {
        let rest = in_section(s.drop_last(), sec);
        if s.last().section == Some(sec) {
            rest.push(s.last())
        } else {
            rest
        }
    }
}

/// The distinct section labels of `s`, each at its first appearance, in
/// the order the records carry them. Records with no section contribute
/// nothing.
pub open spec fn sections_first_seen(s: Seq<BookView>) -> Seq<Seq<char>>
    decreases s.len(),
{
    if s.len() == 0 {
        Seq::<Seq<char>>::empty()
    } else {
        let prefix = sections_first_seen(s.drop_last());
        match s.last().section {
            Some(sec) => if prefix.contains(sec) {
                prefix
            } else {
                prefix.push(sec)
            },
            None => prefix,
        }
    }
}

/// No label appears twice in `labels`.
pub open spec fn distinct_labels(labels: Seq<Seq<char>>) -> bool {
    forall|i: int, j: int|
        #![trigger labels[i], labels[j]]
        0 <= i < labels.len() && 0 <= j < labels.len() && i != j ==> labels[i] != labels[j]
}

/// The views of a sequence of section labels, in order.
pub open spec fn label_views(labels: Seq<String>) -> Seq<Seq<char>> {
    Seq::new(labels.len(), |i: int| labels[i]@)
}

/// Section-filter law: `in_section(s, sec)` holds exactly the records of
/// `s` whose section is `sec`.
pub proof fn lemma_in_section_membership(s: Seq<BookView>, sec: Seq<char>, b: BookView)
    ensures
        in_section(s, sec).contains(b) <==> (s.contains(b) && b.section == Some(sec)),
    decreases s.len(),
{
    if s.len() == 0 {
    } else {
        lemma_in_section_membership(s.drop_last(), sec, b);
        let d = s.drop_last();
        let rest = in_section(d, sec);
        assert(s =~= d.push(s.last()));
        vstd::seq_lib::lemma_seq_contains_after_push(d, s.last(), b);
        if s.last().section == Some(sec) {
            assert(in_section(s, sec) == rest.push(s.last()));
            vstd::seq_lib::lemma_seq_contains_after_push(rest, s.last(), b);
        } else {
            assert(in_section(s, sec) == rest);
        }
    }
}

/// Grouping law, one half: the first-seen section list names each section
/// at most once.
pub proof fn lemma_first_seen_distinct(s: Seq<BookView>)
    ensures
        distinct_labels(sections_first_seen(s)),
    decreases s.len(),
{
    if s.len() == 0 {
    } else {
        lemma_first_seen_distinct(s.drop_last());
        let prefix = sections_first_seen(s.drop_last());
        match s.last().section {
            Some(sec) => {
                if !prefix.contains(sec) {
                    let labels = prefix.push(sec);
                    assert forall|i: int, j: int|
                        0 <= i < labels.len() && 0 <= j < labels.len() && i != j implies #[trigger] labels[i]
                        != #[trigger] labels[j] by {
                        if i < prefix.len() && j < prefix.len() {
                            assert(labels[i] == prefix[i]);
                            assert(labels[j] == prefix[j]);
                        } else if j == prefix.len() {
                            assert(labels[i] == prefix[i]);
                            if prefix[i] == sec {
                                assert(prefix.contains(sec));
                            }
                        } else {
                            assert(labels[j] == prefix[j]);
                            if prefix[j] == sec {
                                assert(prefix.contains(sec));
                            }
                        }
                    }
                }
            },
            None => {},
        }
    }
}

/// Grouping law, other half: a section stands in the first-seen list
/// exactly when some record carries it.
pub proof fn lemma_first_seen_membership(s: Seq<BookView>, sec: Seq<char>)
    ensures
        sections_first_seen(s).contains(sec) <==> (exists|i: int|
            0 <= i < s.len() && (#[trigger] s[i]).section == Some(sec)),
    decreases s.len(),
{
    if s.len() == 0 {
    } else {
        lemma_first_seen_membership(s.drop_last(), sec);
        let d = s.drop_last();
        let prefix = sections_first_seen(d);
        assert(forall|i: int| 0 <= i < d.len() ==> #[trigger] d[i] == s[i]);
        assert(s[s.len() - 1] == s.last());
        if (exists|i: int| 0 <= i < s.len() && (#[trigger] s[i]).section == Some(sec)) {
            let i = choose|i: int| 0 <= i < s.len() && (#[trigger] s[i]).section == Some(sec);
            if i < d.len() {
                assert(d[i].section == Some(sec));
            } else {
                assert(s.last().section == Some(sec));
            }
        }
        if (exists|i: int| 0 <= i < d.len() && (#[trigger] d[i]).section == Some(sec)) {
            let i = choose|i: int| 0 <= i < d.len() && (#[trigger] d[i]).section == Some(sec);
            assert(s[i].section == Some(sec));
        }
        match s.last().section {
            Some(x) => {
                vstd::seq_lib::lemma_seq_contains_after_push(prefix, x, sec);
                if prefix.contains(x) {
                    assert(sections_first_seen(s) == prefix);
                } else {
                    assert(sections_first_seen(s) == prefix.push(x));
                }
            },
            None => {
                assert(sections_first_seen(s) == prefix);
            },
        }
    }
}

/// Whether the record's section is exactly `sec`.
fn section_matches(b: &Book, sec: &str) -> (r: bool)
    ensures
        r == (b@.section == Some(sec@)),
{
    match &b.section {
        Some(s) => str_eq(s.as_str(), sec),
        None => false,
    }
}

/// The records of `records` whose section is exactly `sec`, as owned
/// copies, in their original relative order.
pub fn filter_by_section(records: &Vec<Book>, sec: &str) -> (r: Vec<Book>)
    ensures
        views_of(r@) == in_section(views_of(records@), sec@),
{
    let ghost s = views_of(records@);
    let mut out: Vec<Book> = Vec::new();
    let mut i: usize = 0;
    proof {
        assert(s.take(0) =~= Seq::<BookView>::empty());
        assert(views_of(out@) =~= in_section(s.take(0), sec@));
    }
    while i < records.len()
        invariant
            i <= records.len(),
            s == views_of(records@),
            views_of(out@) == in_section(s.take(i as int), sec@),
        decreases records.len() - i,
    {
        let ghost prevout = out@;
        let matched = section_matches(&records[i], sec);
        if matched {
            out.push(records[i].clone());
        }
        i += 1;
        proof {
            let t = s.take(i as int - 1);
            let t2 = s.take(i as int);
            assert(s.len() == records@.len());
            assert(t2.drop_last() =~= t);
            assert(t2.last() == s[i as int - 1]);
            assert(s[i as int - 1] == records@[i as int - 1]@);
            if matched {
                assert(views_of(prevout).len() == prevout.len());
                assert forall|j: int| 0 <= j < out@.len() implies #[trigger] views_of(out@)[j]
                    == views_of(prevout).push(records@[i as int - 1]@)[j] by {
                    assert(views_of(out@)[j] == out@[j]@);
                    if j < prevout.len() {
                        assert(out@[j] == prevout[j]);
                        assert(views_of(prevout)[j] == prevout[j]@);
                    }
                }
                assert(views_of(out@) =~= views_of(prevout).push(records@[i as int - 1]@));
                assert(in_section(t2, sec@) == in_section(t, sec@).push(t2.last()));
            } else {
                assert(in_section(t2, sec@) == in_section(t, sec@));
            }
        }
    }
    proof {
        assert(s.take(i as int) =~= s);
    }
    out
}

/// Whether some label of `labels` is exactly `sec`.
fn contains_label(labels: &Vec<String>, sec: &str) -> (r: bool)
    ensures
        r == label_views(labels@).contains(sec@),
{
    let mut i: usize = 0;
    while i < labels.len()
        invariant
            i <= labels.len(),
            forall|j: int| 0 <= j < i ==> #[trigger] label_views(labels@)[j] != sec@,
        decreases labels.len() - i,
    {
        if str_eq(labels[i].as_str(), sec) {
            proof {
                assert(label_views(labels@)[i as int] == sec@);
            }
            return true;
        }
        i += 1;
    }
    proof {
        assert(label_views(labels@).len() == labels@.len());
        assert(!label_views(labels@).contains(sec@));
    }
    false
}

/// The views of a label sequence with one more label pushed.
proof fn lemma_label_views_push(labels: Seq<String>, l: String)
    ensures
        label_views(labels.push(l)) =~= label_views(labels).push(l@),
{
    assert forall|j: int| 0 <= j < labels.push(l).len() implies #[trigger] label_views(
        labels.push(l),
    )[j] == label_views(labels).push(l@)[j] by {
        assert(label_views(labels.push(l))[j] == labels.push(l)[j]@);
        if j < labels.len() {
            assert(labels.push(l)[j] == labels[j]);
            assert(label_views(labels)[j] == labels[j]@);
        }
    }
}

/// Partitions `records` into per-section groups: one group for each
/// distinct section label, in first-seen order of the labels as the
/// records carry them; each group holds exactly the records of its
/// section, in their original relative order. Records with no section
/// appear in no group.
pub fn group_by_section(records: &Vec<Book>) -> (r: Vec<(String, Vec<Book>)>)
    ensures
        r@.len() == sections_first_seen(views_of(records@)).len(),
        forall|g: int|
            0 <= g < r@.len() ==> (#[trigger] r@[g]).0@ == sections_first_seen(views_of(records@))[g],
        forall|g: int|
            0 <= g < r@.len() ==> views_of((#[trigger] r@[g]).1@) == in_section(
                views_of(records@),
                sections_first_seen(views_of(records@))[g],
            ),
{
    let ghost s = views_of(records@);
    let mut labels: Vec<String> = Vec::new();
    let mut i: usize = 0;
    proof {
        assert(s.take(0) =~= Seq::<BookView>::empty());
        assert(label_views(labels@) =~= sections_first_seen(s.take(0)));
    }
    while i < records.len()
        invariant
            i <= records.len(),
            s == views_of(records@),
            label_views(labels@) == sections_first_seen(s.take(i as int)),
        decreases records.len() - i,
    {
        let ghost prev = labels@;
        match &records[i].section {
            Some(sec) => {
                if !contains_label(&labels, sec.as_str()) {
                    labels.push(sec.clone());
                }
            },
            None => {},
        }
        i += 1;
        proof {
            let t = s.take(i as int - 1);
            let t2 = s.take(i as int);
            assert(s.len() == records@.len());
            assert(t2.drop_last() =~= t);
            assert(t2.last() == s[i as int - 1]);
            assert(s[i as int - 1] == records@[i as int - 1]@);
            match t2.last().section {
                Some(secv) => {
                    if sections_first_seen(t).contains(secv) {
                        assert(labels@ == prev);
                        assert(sections_first_seen(t2) == sections_first_seen(t));
                    } else {
                        lemma_label_views_push(prev, labels@.last());
                        assert(labels@ =~= prev.push(labels@.last()));
                        assert(label_views(labels@) =~= label_views(prev).push(secv));
                        assert(sections_first_seen(t2) == sections_first_seen(t).push(secv));
                    }
                },
                None => {
                    assert(labels@ == prev);
                    assert(sections_first_seen(t2) == sections_first_seen(t));
                },
            }
        }
    }
    proof {
        assert(s.take(i as int) =~= s);
        assert(label_views(labels@) == sections_first_seen(s));
    }
    let mut groups: Vec<(String, Vec<Book>)> = Vec::new();
    let mut g: usize = 0;
    while g < labels.len()
        invariant
            g <= labels.len(),
            s == views_of(records@),
            label_views(labels@) == sections_first_seen(s),
            groups@.len() == g,
            forall|j: int|
                0 <= j < g ==> (#[trigger] groups@[j]).0@ == sections_first_seen(s)[j],
            forall|j: int|
                0 <= j < g ==> views_of((#[trigger] groups@[j]).1@) == in_section(
                    s,
                    sections_first_seen(s)[j],
                ),
        decreases labels.len() - g,
    {
        let ghost prevg = groups@;
        let name = labels[g].clone();
        let members = filter_by_section(records, labels[g].as_str());
        groups.push((name, members));
        g += 1;
        proof {
            assert(label_views(labels@).len() == labels@.len());
            assert(forall|j: int| 0 <= j < g - 1 ==> #[trigger] groups@[j] == prevg[j]);
            assert(groups@[g as int - 1].0@ == label_views(labels@)[g as int - 1]);
            assert(views_of(groups@[g as int - 1].1@) == in_section(
                s,
                label_views(labels@)[g as int - 1],
            ));
        }
    }
    proof {
        assert(label_views(labels@).len() == labels@.len());
    }
    groups
}

} // verus!
