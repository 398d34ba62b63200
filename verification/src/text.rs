//! Text-level helpers of the projection: splitting the demuxer's
//! comma-separated format-name list, and folding the container tags into a
//! key-unique association list where the last occurrence of a key wins.

use vstd::prelude::*;
use crate::snapshot::{view_pairs, view_strings};

verus! {

/// The tokens of `s` split on `','`: always at least one token, and an empty
/// input yields one empty token.
pub open spec fn split_commas(s: Seq<char>) -> Seq<Seq<char>>
    decreases s.len(),
{
    if s.len() == 0 {
        seq![Seq::<char>::empty()]
    } else if s[0] == ',' {
        seq![Seq::<char>::empty()] + split_commas(s.skip(1))
    } else {
        let rest = split_commas(s.skip(1));
        seq![seq![s[0]] + rest[0]] + rest.skip(1)
    }
}

pub proof fn lemma_split_commas_nonempty(s: Seq<char>)
    ensures
        split_commas(s).len() >= 1,
    decreases s.len(),
{
    if s.len() != 0 {
        lemma_split_commas_nonempty(s.skip(1));
    }
}

/// A string without commas is a single token.
pub proof fn lemma_split_no_comma(s: Seq<char>)
    requires
        forall|i: int| 0 <= i < s.len() ==> s[i] != ',',
    ensures
        split_commas(s) == seq![s],
    decreases s.len(),
{
    if s.len() == 0 {
        assert(s =~= Seq::<char>::empty());
        assert(split_commas(s) =~~= seq![s]);
    } else {
        lemma_split_no_comma(s.skip(1));
        assert(seq![s[0]] + s.skip(1) =~= s);
        assert(split_commas(s) =~~= seq![s]);
    }
}

/// Splitting at the first comma: everything before it is the first token and
/// the rest splits independently.
pub proof fn lemma_split_first_comma(s: Seq<char>, j: int)
    requires
        0 <= j < s.len(),
        s[j] == ',',
        forall|i: int| 0 <= i < j ==> s[i] != ',',
    ensures
        split_commas(s) == seq![s.take(j)] + split_commas(s.skip(j + 1)),
    decreases j,
{
    if j == 0 {
        assert(s.take(0) =~= Seq::<char>::empty());
        assert(split_commas(s) =~~= seq![s.take(0)] + split_commas(s.skip(1)));
    } else {
        let t = s.skip(1);
        assert(t[j - 1] == s[j]);
        assert(forall|i: int| 0 <= i < j - 1 ==> t[i] == s[i + 1] && t[i] != ',');
        lemma_split_first_comma(t, j - 1);
        lemma_split_commas_nonempty(t.skip(j));
        let rest = split_commas(t);
        // rest == seq![t.take(j - 1)] + split_commas(t.skip(j))
        assert(rest[0] == t.take(j - 1));
        assert(rest.skip(1) =~~= split_commas(t.skip(j)));
        assert(seq![s[0]] + t.take(j - 1) =~= s.take(j));
        assert(t.skip(j) =~= s.skip(j + 1));
        assert(split_commas(s) =~~= seq![s.take(j)] + split_commas(s.skip(j + 1)));
    }
}

/// Splits `s` on commas, in order; the result holds `split_commas(s@)`.
pub fn split_list(s: &str) -> (r: Vec<String>)
    ensures
        view_strings(r@) == split_commas(s@),
        r@.len() >= 1,
{
    let n = s.unicode_len();
    let mut out: Vec<String> = Vec::new();
    let mut start: usize = 0;
    let mut p: usize = 0;
    proof {
        assert(s@.skip(0) =~= s@);
    }
    while p < n
        invariant
            start <= p <= n,
            n == s@.len(),
            split_commas(s@) == view_strings(out@) + split_commas(s@.skip(start as int)),
            forall|i: int| start <= i < p ==> s@[i] != ',',
        decreases n - p,
    {
        if s.get_char(p) == ',' {
            let tok = s.substring_char(start, p).to_owned();
            proof {
                let tail = s@.skip(start as int);
                assert(forall|i: int| 0 <= i < p - start ==> tail[i] == s@[i + start] && tail[i]
                    != ',');
                assert(tail[p - start] == ',');
                lemma_split_first_comma(tail, p - start as int);
                assert(tail.take(p - start) =~= tok@);
                assert(tail.skip(p - start + 1) =~= s@.skip(p + 1));
                assert(view_strings(out@.push(tok)) =~~= view_strings(out@) + seq![tok@]);
                assert(view_strings(out@.push(tok)) + split_commas(s@.skip(p + 1)) =~~= split_commas(
                    s@,
                ));
            }
            out.push(tok);
            start = p + 1;
        }
        p = p + 1;
    }
    let tok = s.substring_char(start, n).to_owned();
    proof {
        let tail = s@.skip(start as int);
        assert(forall|i: int| 0 <= i < tail.len() ==> tail[i] == s@[i + start] && tail[i] != ',');
        lemma_split_no_comma(tail);
        assert(tail =~= tok@);
        assert(view_strings(out@.push(tok)) =~~= view_strings(out@) + seq![tok@]);
        assert(view_strings(out@.push(tok)) =~~= split_commas(s@));
    }
    out.push(tok);
    out
}

/// One tag folded into an association list: if the key is already bound, the
/// binding keeps its place and takes the new value; otherwise the pair is
/// appended.
pub open spec fn insert_tag(
    acc: Seq<(Seq<char>, Seq<char>)>,
    t: (Seq<char>, Seq<char>),
) -> Seq<(Seq<char>, Seq<char>)>
    decreases acc.len(),
{
    if acc.len() == 0 {
        seq![t]
    } else if acc[0].0 == t.0 {
        seq![t] + acc.skip(1)
    } else {
        seq![acc[0]] + insert_tag(acc.skip(1), t)
    }
}

/// The container tags folded left to right: duplicate keys overwrite, keeping
/// the last value.
pub open spec fn spec_details(tags: Seq<(Seq<char>, Seq<char>)>) -> Seq<(Seq<char>, Seq<char>)>
    decreases tags.len(),
{
    if tags.len() == 0 {
        Seq::empty()
    } else {
        insert_tag(spec_details(tags.drop_last()), tags.last())
    }
}

/// The value bound to `k`, scanning from the front.
pub open spec fn assoc_get(s: Seq<(Seq<char>, Seq<char>)>, k: Seq<char>) -> Option<Seq<char>>
    decreases s.len(),
{
    if s.len() == 0 {
        Option::None
    } else if s[0].0 == k {
        Option::Some(s[0].1)
    } else {
        assoc_get(s.skip(1), k)
    }
}

/// The value of the last tag with key `k`, if any.
pub open spec fn last_value(tags: Seq<(Seq<char>, Seq<char>)>, k: Seq<char>) -> Option<Seq<char>>
    decreases tags.len(),
{
    if tags.len() == 0 {
        Option::None
    } else if tags.last().0 == k {
        Option::Some(tags.last().1)
    } else {
        last_value(tags.drop_last(), k)
    }
}

/// No key occurs twice.
pub open spec fn unique_keys(s: Seq<(Seq<char>, Seq<char>)>) -> bool {
    forall|i: int, j: int| 0 <= i < j < s.len() ==> s[i].0 != s[j].0
}

proof fn lemma_insert_tag_get(acc: Seq<(Seq<char>, Seq<char>)>, t: (Seq<char>, Seq<char>))
    requires
        unique_keys(acc),
    ensures
        unique_keys(insert_tag(acc, t)),
        assoc_get(insert_tag(acc, t), t.0) == Option::<Seq<char>>::Some(t.1),
        forall|k: Seq<char>| k != t.0 ==> assoc_get(insert_tag(acc, t), k) == assoc_get(acc, k),
    decreases acc.len(),
{
    let r = insert_tag(acc, t);
    if acc.len() == 0 {
        assert(r =~~= seq![t]);
        assert forall|k: Seq<char>| k != t.0 implies assoc_get(r, k) == assoc_get(acc, k) by {
            assert(r.skip(1) =~~= acc);
        }
    } else if acc[0].0 == t.0 {
        assert(r =~~= seq![t] + acc.skip(1));
        assert(r.skip(1) =~~= acc.skip(1));
        assert forall|k: Seq<char>| k != t.0 implies assoc_get(r, k) == assoc_get(acc, k) by {
            assert(assoc_get(r, k) == assoc_get(acc.skip(1), k));
            assert(assoc_get(acc, k) == assoc_get(acc.skip(1), k));
        }
        assert forall|i: int, j: int| 0 <= i < j < r.len() implies r[i].0 != r[j].0 by {
            if i > 0 {
                assert(acc[i].0 != acc[j].0);
            } else {
                assert(acc[0].0 != acc[j].0);
            }
        }
    } else {
        assert(unique_keys(acc.skip(1))) by {
            assert forall|i: int, j: int| 0 <= i < j < acc.skip(1).len() implies acc.skip(1)[i].0
                != acc.skip(1)[j].0 by {
                assert(acc[i + 1].0 != acc[j + 1].0);
            }
        }
        lemma_insert_tag_get(acc.skip(1), t);
        let ri = insert_tag(acc.skip(1), t);
        assert(r =~~= seq![acc[0]] + ri);
        assert(r.skip(1) =~~= ri);
        assert(assoc_get(r, t.0) == assoc_get(ri, t.0));
        assert forall|k: Seq<char>| k != t.0 implies assoc_get(r, k) == assoc_get(acc, k) by {
            if acc[0].0 != k {
                assert(assoc_get(r, k) == assoc_get(ri, k));
                assert(assoc_get(acc, k) == assoc_get(acc.skip(1), k));
            }
        }
        // the head key differs from every key in the tail, and from t.0
        assert forall|i: int, j: int| 0 <= i < j < r.len() implies r[i].0 != r[j].0 by {
            if i == 0 {
                assert(r[j] == ri[j - 1]);
                if ri[j - 1].0 == acc[0].0 {
                    // every key of ri is a key of acc.skip(1) or t.0
                    lemma_insert_tag_keys(acc.skip(1), t, j - 1);
                }
            } else {
                assert(r[i] == ri[i - 1] && r[j] == ri[j - 1]);
            }
        }
    }
}

/// Every key in `insert_tag(acc, t)` is `t.0` or a key of `acc`.
proof fn lemma_insert_tag_keys(
    acc: Seq<(Seq<char>, Seq<char>)>,
    t: (Seq<char>, Seq<char>),
    i: int,
)
    requires
        0 <= i < insert_tag(acc, t).len(),
    ensures
        insert_tag(acc, t)[i].0 == t.0 || exists|j: int|
            0 <= j < acc.len() && acc[j].0 == insert_tag(acc, t)[i].0,
    decreases acc.len(),
{
    let r = insert_tag(acc, t);
    if acc.len() == 0 {
    } else if acc[0].0 == t.0 {
        if i > 0 {
            assert(r[i] == acc[i]);
        }
    } else {
        if i > 0 {
            lemma_insert_tag_keys(acc.skip(1), t, i - 1);
            let ri = insert_tag(acc.skip(1), t);
            assert(r[i] == ri[i - 1]);
            if ri[i - 1].0 != t.0 {
                let j = choose|j: int|
                    0 <= j < acc.skip(1).len() && acc.skip(1)[j].0 == ri[i - 1].0;
                assert(acc[j + 1].0 == r[i].0);
            }
        }
    }
}

/// The folded tag list binds every key to the value of its last occurrence,
/// with no key bound twice.
pub proof fn lemma_details_last_wins(tags: Seq<(Seq<char>, Seq<char>)>)
    ensures
        unique_keys(spec_details(tags)),
        forall|k: Seq<char>| #[trigger] assoc_get(spec_details(tags), k) == last_value(tags, k),
    decreases tags.len(),
{
    if tags.len() == 0 {
    } else {
        let t = tags.last();
        let d = spec_details(tags.drop_last());
        lemma_details_last_wins(tags.drop_last());
        lemma_insert_tag_get(d, t);
        assert forall|k: Seq<char>| #[trigger] assoc_get(spec_details(tags), k) == last_value(
            tags,
            k,
        ) by {
            if k != t.0 {
                assert(assoc_get(insert_tag(d, t), k) == assoc_get(d, k));
            }
        }
    }
}

/// When the first binding of `t.0` in `acc` is at `j`, folding `t` in updates
/// that slot; when there is none, it appends.
proof fn lemma_insert_tag_update(
    acc: Seq<(Seq<char>, Seq<char>)>,
    t: (Seq<char>, Seq<char>),
    j: int,
)
    requires
        0 <= j < acc.len(),
        acc[j].0 == t.0,
        forall|i: int| 0 <= i < j ==> acc[i].0 != t.0,
    ensures
        insert_tag(acc, t) == acc.update(j, t),
    decreases j,
{
    if j == 0 {
        assert(insert_tag(acc, t) =~~= acc.update(0, t));
    } else {
        lemma_insert_tag_update(acc.skip(1), t, j - 1);
        assert(insert_tag(acc, t) =~~= acc.update(j, t)) by {
            assert(acc.skip(1).update(j - 1, t) =~~= acc.update(j, t).skip(1));
        }
    }
}

/// Folds the container tags left to right into a key-unique association
/// list; a repeated key keeps its slot and takes the later value.
pub fn build_details(tags: &Vec<(String, String)>) -> (r: Vec<(String, String)>)
    ensures
        view_pairs(r@) == spec_details(view_pairs(tags@)),
{
    let mut out: Vec<(String, String)> = Vec::new();
    let mut i: usize = 0;
    while i < tags.len()
        invariant
            i <= tags@.len(),
            view_pairs(out@) == spec_details(view_pairs(tags@).take(i as int)),
        decreases tags@.len() - i,
    {
        let key = tags[i].0.clone();
        let val = tags[i].1.clone();
        let ghost t = (key@, val@);
        let ghost prev = view_pairs(out@);
        let mut j: usize = 0;
        let mut pos: Option<usize> = Option::None;
        while j < out.len()
            invariant
                j <= out@.len(),
                match pos {
                    Option::Some(p) => p < j && view_pairs(out@)[p as int].0 == key@ && forall|
                        q: int,
                    | 0 <= q < p ==> view_pairs(out@)[q].0 != key@,
                    Option::None => forall|q: int| 0 <= q < j ==> view_pairs(out@)[q].0 != key@,
                },
            decreases out@.len() - j,
        {
            match pos {
                Option::None => {
                    if out[j].0 == key {
                        pos = Option::Some(j);
                    }
                },
                Option::Some(_) => {},
            }
            j = j + 1;
        }
        match pos {
            Option::Some(p) => {
                proof {
                    lemma_insert_tag_update(prev, t, p as int);
                }
                out.set(p, (key, val));
                proof {
                    assert(view_pairs(out@) =~~= prev.update(p as int, t));
                }
            },
            Option::None => {
                proof {
                    lemma_insert_tag_push(prev, t);
                }
                out.push((key, val));
                proof {
                    assert(view_pairs(out@) =~~= prev.push(t));
                }
            },
        }
        proof {
            let vt = view_pairs(tags@);
            assert(vt.take(i + 1).drop_last() =~~= vt.take(i as int));
            assert(vt.take(i + 1).last() == t);
            assert(view_pairs(out@) == spec_details(vt.take(i + 1)));
        }
        i = i + 1;
    }
    proof {
        assert(view_pairs(tags@).take(tags@.len() as int) =~~= view_pairs(tags@));
    }
    out
}

proof fn lemma_insert_tag_push(acc: Seq<(Seq<char>, Seq<char>)>, t: (Seq<char>, Seq<char>))
    requires
        forall|i: int| 0 <= i < acc.len() ==> acc[i].0 != t.0,
    ensures
        insert_tag(acc, t) == acc.push(t),
    decreases acc.len(),
{
    if acc.len() == 0 {
        assert(insert_tag(acc, t) =~~= acc.push(t));
    } else {
        lemma_insert_tag_push(acc.skip(1), t);
        assert(insert_tag(acc, t) =~~= acc.push(t)) by {
            assert(acc.skip(1).push(t) =~~= acc.push(t).skip(1));
        }
    }
}

} // verus!
