//! Merging of operation labels when two barriers collapse into one.
//!
//! A merged label is a list of fragments joined by `" | "`. Merging splits
//! both labels into fragments, keeps each distinct fragment once in
//! first-seen order, and joins them again.
use vstd::prelude::*;

verus! {

/// Whether `s` holds the separator `" | "` at position `k`.
pub open spec fn separator_at(s: Seq<char>, k: int) -> bool {
    0 <= k && k + 3 <= s.len() && s[k] == ' ' && s[k + 1] == '|' && s[k + 2] == ' '
}

/// The first separator position at or after `k`.
pub open spec fn first_separator_from(s: Seq<char>, k: int) -> Option<int>
    decreases s.len() - k,
{
    if k < 0 || k + 3 > s.len() {
        None
    } else if separator_at(s, k) {
        Some(k)
    } else {
        first_separator_from(s, k + 1)
    }
}

/// The fragments of `s` from position `start` on, split at each separator
/// from left to right.
pub open spec fn split_from(s: Seq<char>, start: int) -> Seq<Seq<char>>
    decreases s.len() - start,
{
    match first_separator_from(s, start) {
        Some(i) => if start <= i && i + 3 <= s.len() {
            seq![s.subrange(start, i)] + split_from(s, i + 3)
        } else {
            seq![s.subrange(start, s.len() as int)]
        },
        None => seq![s.subrange(start, s.len() as int)],
    }
}

/// The fragments of a label.
pub open spec fn split_label(s: Seq<char>) -> Seq<Seq<char>> {
    split_from(s, 0)
}

/// Appends each fragment of `parts` not already in `kept`, in order.
pub open spec fn keep_new(kept: Seq<Seq<char>>, parts: Seq<Seq<char>>) -> Seq<Seq<char>>
    decreases parts.len(),
{
    if parts.len() == 0 {
        kept
    } else {
        let next = if kept.contains(parts[0]) { kept } else { kept.push(parts[0]) };
        keep_new(next, parts.drop_first())
    }
}

/// Joins fragments with the separator.
pub open spec fn join_label(parts: Seq<Seq<char>>) -> Seq<char>
    decreases parts.len(),
{
    if parts.len() == 0 {
        seq![]
    } else if parts.len() == 1 {
        parts[0]
    } else {
        join_label(parts.drop_last()) + seq![' ', '|', ' '] + parts.last()
    }
}

/// The label of a merged barrier.
pub open spec fn merged_label(primary: Option<Seq<char>>, absorbed: Option<Seq<char>>) -> Option<Seq<char>> {
    match (primary, absorbed) {
        (None, None) => None,
        (Some(p), None) => Some(p),
        (None, Some(a)) => Some(a),
        (Some(p), Some(a)) => if p == a {
            Some(p)
        } else {
            Some(join_label(keep_new(keep_new(seq![], split_label(p)), split_label(a))))
        },
    }
}

/// The views of a list of strings.
pub open spec fn strings_view(v: Seq<String>) -> Seq<Seq<char>> {
    v.map_values(|x: String| x@)
}

/// The first separator position at or after `start`, found by scanning.
proof fn lemma_first_separator_scan(s: Seq<char>, start: int, i: int)
    requires
        0 <= start <= i,
        forall|k: int| start <= k < i ==> !separator_at(s, k),
    ensures
        first_separator_from(s, start) == first_separator_from(s, i),
    decreases i - start,
{
    if start < i {
        lemma_first_separator_scan(s, start + 1, i);
    }
}

/// Splits a label into its fragments.
pub fn split_fragments(label: &str) -> (r: Vec<String>)
    ensures
        strings_view(r@) == split_label(label@),
{
    let n = label.unicode_len();
    let mut parts: Vec<String> = Vec::new();
    let mut start: usize = 0;
    let mut i: usize = 0;
    while n >= 3 && i <= n - 3
        invariant
            n == label@.len(),
            start <= i,
            i <= n,
            start <= n,
            forall|k: int| start <= k < i ==> !separator_at(label@, k),
            split_label(label@) == strings_view(parts@) + split_from(label@, start as int),
        decreases n - i,
    {
        if label.get_char(i) == ' ' && label.get_char(i + 1) == '|' && label.get_char(i + 2) == ' ' {
            proof {
                lemma_first_separator_scan(label@, start as int, i as int);
                assert(separator_at(label@, i as int));
                assert(first_separator_from(label@, i as int) == Some(i as int));
            }
            let fragment = String::from_str(label.substring_char(start, i));
            let ghost before = strings_view(parts@);
            parts.push(fragment);
            proof {
                assert(strings_view(parts@) =~= before.push(label@.subrange(start as int, i as int)));
                assert(split_from(label@, start as int) == seq![label@.subrange(start as int, i as int)] + split_from(label@, i + 3));
                assert(split_label(label@) =~= strings_view(parts@) + split_from(label@, i + 3));
            }
            i = i + 3;
            start = i;
        } else {
            i = i + 1;
        }
    }
    proof {
        lemma_first_separator_scan(label@, start as int, i as int);
        assert(first_separator_from(label@, start as int) is None);
    }
    let last = String::from_str(label.substring_char(start, n));
    let ghost before = strings_view(parts@);
    parts.push(last);
    proof {
        assert(strings_view(parts@) =~= before.push(label@.subrange(start as int, n as int)));
    }
    parts
}

/// Appends each fragment of `parts` not already in `kept`, in order.
fn keep_new_fragments(kept: &mut Vec<String>, parts: Vec<String>)
    ensures
        strings_view(final(kept)@) == keep_new(strings_view(old(kept)@), strings_view(parts@)),
{
    let ghost all = strings_view(parts@);
    let mut i: usize = 0;
    proof {
        assert(all.subrange(0, all.len() as int) =~= all);
    }
    while i < parts.len()
        invariant
            i <= parts@.len(),
            all == strings_view(parts@),
            keep_new(strings_view(old(kept)@), all) == keep_new(strings_view(kept@), all.subrange(i as int, all.len() as int)),
        decreases parts@.len() - i,
    {
        let mut present = false;
        let mut j: usize = 0;
        while j < kept.len()
            invariant
                j <= kept@.len(),
                i < parts@.len(),
                present <==> exists|t: int| 0 <= t < j && kept@[t]@ == parts@[i as int]@,
            decreases kept@.len() - j,
        {
            if kept[j] == parts[i] {
                present = true;
            }
            j = j + 1;
        }
        let ghost suffix = all.subrange(i as int, all.len() as int);
        proof {
            assert(suffix[0] == parts@[i as int]@);
            assert(suffix.drop_first() =~= all.subrange(i + 1, all.len() as int));
            if present {
                let t = choose|t: int| 0 <= t < kept@.len() && kept@[t]@ == parts@[i as int]@;
                assert(strings_view(kept@)[t] == parts@[i as int]@);
                assert(strings_view(kept@).contains(suffix[0]));
            } else {
                assert(!strings_view(kept@).contains(suffix[0]));
            }
        }
        if !present {
            let ghost before = strings_view(kept@);
            kept.push(parts[i].clone());
            proof {
                assert(strings_view(kept@) =~= before.push(parts@[i as int]@));
            }
        }
        i = i + 1;
    }
}

/// Joins fragments with the separator.
fn join_fragments(parts: &Vec<String>) -> (r: String)
    ensures
        r@ == join_label(strings_view(parts@)),
{
    let separator = " | ";
    proof {
        reveal_strlit(" | ");
        assert(separator@ =~= seq![' ', '|', ' ']);
    }
    let mut r = String::new();
    let ghost all = strings_view(parts@);
    let mut i: usize = 0;
    while i < parts.len()
        invariant
            i <= parts@.len(),
            all == strings_view(parts@),
            separator@ == seq![' ', '|', ' '],
            r@ == join_label(all.subrange(0, i as int)),
        decreases parts@.len() - i,
    {
        let ghost prefix = all.subrange(0, i as int);
        let ghost next = all.subrange(0, i + 1);
        proof {
            assert(next.drop_last() =~= prefix);
            assert(next.last() == parts@[i as int]@);
        }
        if i > 0 {
            r.append(separator);
        }
        r.append(parts[i].as_str());
        proof {
            if i == 0 {
                assert(prefix =~= Seq::<Seq<char>>::empty());
                assert(r@ =~= next[0]);
            } else {
                assert(r@ =~= join_label(prefix) + seq![' ', '|', ' '] + parts@[i as int]@);
            }
        }
        i = i + 1;
    }
    proof {
        assert(all.subrange(0, all.len() as int) =~= all);
    }
    r
}

/// Merges the labels of two barriers: `primary`'s fragments first, then the
/// new fragments of `absorbed`.
pub fn merge_operation_labels(primary: Option<String>, absorbed: Option<String>) -> (r: Option<String>)
    ensures
        match r {
            Some(s) => merged_label(
                match primary { Some(p) => Some(p@), None => None },
                match absorbed { Some(a) => Some(a@), None => None },
            ) == Some(s@),
            None => merged_label(
                match primary { Some(p) => Some(p@), None => None },
                match absorbed { Some(a) => Some(a@), None => None },
            ) is None,
        },
{
    match (primary, absorbed) {
        (None, None) => None,
        (Some(label), None) => Some(label),
        (None, Some(label)) => Some(label),
        (Some(p), Some(a)) => {
            if p == a {
                return Some(p);
            }
            let mut kept: Vec<String> = Vec::new();
            proof {
                assert(strings_view(kept@) =~= Seq::<Seq<char>>::empty());
            }
            keep_new_fragments(&mut kept, split_fragments(p.as_str()));
            keep_new_fragments(&mut kept, split_fragments(a.as_str()));
            Some(join_fragments(&kept))
        },
    }
}

/// Keeping new fragments keeps `kept` as a prefix, repeats nothing, and
/// holds exactly the fragments of `kept` and `parts`.
proof fn lemma_keep_new(kept: Seq<Seq<char>>, parts: Seq<Seq<char>>)
    requires
        kept.no_duplicates(),
    ensures
        keep_new(kept, parts).no_duplicates(),
        keep_new(kept, parts).len() >= kept.len(),
        keep_new(kept, parts).subrange(0, kept.len() as int) == kept,
        forall|x: Seq<char>| keep_new(kept, parts).contains(x) <==> kept.contains(x) || parts.contains(x),
    decreases parts.len(),
{
    if parts.len() > 0 {
        let next = if kept.contains(parts[0]) { kept } else { kept.push(parts[0]) };
        assert(next.no_duplicates()) by {
            if !kept.contains(parts[0]) {
                assert forall|i: int, j: int| 0 <= i < next.len() && 0 <= j < next.len() && i != j implies next[i] != next[j] by {
                    if i == kept.len() as int {
                        assert(kept.contains(kept[j]));
                    } else if j == kept.len() as int {
                        assert(kept.contains(kept[i]));
                    }
                }
            }
        }
        lemma_keep_new(next, parts.drop_first());
        let r = keep_new(next, parts.drop_first());
        assert(r.subrange(0, kept.len() as int) =~= kept) by {
            assert forall|i: int| 0 <= i < kept.len() implies r[i] == kept[i] by {
                assert(r.subrange(0, next.len() as int)[i] == next[i]);
            }
        }
        assert forall|x: Seq<char>| r.contains(x) <==> kept.contains(x) || parts.contains(x) by {
            if parts.drop_first().contains(x) {
                let i = choose|i: int| 0 <= i < parts.drop_first().len() && parts.drop_first()[i] == x;
                assert(parts[i + 1] == x);
            }
            if parts.contains(x) {
                let i = choose|i: int| 0 <= i < parts.len() && parts[i] == x;
                if i > 0 {
                    assert(parts.drop_first()[i - 1] == x);
                } else {
                    if !kept.contains(x) {
                        assert(next[kept.len() as int] == x);
                    }
                }
            }
            if next.contains(x) && !kept.contains(x) {
                let i = choose|i: int| 0 <= i < next.len() && next[i] == x;
                assert(i == kept.len());
                assert(parts[0] == x);
            }
            if kept.contains(x) {
                let i = choose|i: int| 0 <= i < kept.len() && kept[i] == x;
                assert(next[i] == x);
            }
        }
    }
}

/// Law: a merged label's fragments repeat nothing, are exactly the
/// fragments of both labels, and start with the primary label's distinct
/// fragments in their first-seen order.
pub proof fn lemma_merged_fragments(primary: Seq<char>, absorbed: Seq<char>)
    ensures
        ({
            let first = keep_new(seq![], split_label(primary));
            let all = keep_new(first, split_label(absorbed));
            &&& all.no_duplicates()
            &&& all.subrange(0, first.len() as int) == first
            &&& forall|x: Seq<char>| all.contains(x) <==> split_label(primary).contains(x) || split_label(absorbed).contains(x)
        }),
{
    let empty = Seq::<Seq<char>>::empty();
    lemma_keep_new(empty, split_label(primary));
    let first = keep_new(empty, split_label(primary));
    lemma_keep_new(first, split_label(absorbed));
}

} // verus!
