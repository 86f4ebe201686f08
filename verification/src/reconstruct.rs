//! Reconstruction of structured records from a flat stream of (tag name,
//! text) pairs. Two strategies: sentinel-grouping, where one designated tag
//! opens a new record and every other recognized tag writes into the most
//! recently opened one; and parallel-column grouping, where every recognized
//! tag appends to a per-field column and records are zipped together by
//! position afterwards.
//!
//! A record kind is configured by a sequence of tag names; the tag at index
//! 0 is the sentinel (or, for the parallel strategy, the reference column),
//! and field `k` of every record is fed by the tag at index `k`. Records
//! are plain rows: one text value per configured tag.

use vstd::prelude::*;

use crate::xml_source::{elems_view, Element};

verus! {

// ---------------------------------------------------------------------------
// The mathematical model
// ---------------------------------------------------------------------------

/// The views of a sequence of strings.
pub open spec fn strs_view(ss: Seq<String>) -> Seq<Seq<char>> {
    ss.map_values(|s: String| s@)
}

/// The views of a sequence of rows.
pub open spec fn rows_view(rows: Seq<Vec<String>>) -> Seq<Seq<Seq<char>>> {
    rows.map_values(|r: Vec<String>| strs_view(r@))
}

/// No tag name is configured twice.
pub open spec fn distinct_tags(tags: Seq<Seq<char>>) -> bool {
    forall|a: int, b: int| 0 <= a < b < tags.len() ==> tags[a] != tags[b]
}

/// The indices, in increasing order, of the elements of `els` whose tag is
/// `s`.
pub open spec fn positions_of(s: Seq<char>, els: Seq<(Seq<char>, Seq<char>)>) -> Seq<int>
    decreases els.len(),
{
    if els.len() == 0 {
        Seq::empty()
    } else {
        let p = positions_of(s, els.drop_last());
        if els.last().0 == s {
            p.push(els.len() - 1)
        } else {
            p
        }
    }
}

/// The text of the last element tagged `t` among `els[lo..hi]`, or the empty
/// text if no such element stands there.
pub open spec fn last_value_in(
    t: Seq<char>,
    els: Seq<(Seq<char>, Seq<char>)>,
    lo: int,
    hi: int,
) -> Seq<char>
    decreases hi - lo,
{
    if lo >= hi {
        Seq::empty()
    } else if els[hi - 1].0 == t {
        els[hi - 1].1
    } else {
        last_value_in(t, els, lo, hi - 1)
    }
}

/// The record whose sentinel stands at `start` and whose span of field
/// elements is `els[start+1 .. end]`: field 0 holds the sentinel's text, and
/// every other field `k` holds the text of the last element in the span
/// tagged `tags[k]` — or empty text, where the span has none.
pub open spec fn record_of(
    tags: Seq<Seq<char>>,
    els: Seq<(Seq<char>, Seq<char>)>,
    start: int,
    end: int,
) -> Seq<Seq<char>> {
    Seq::new(
        tags.len(),
        |k: int|
            if k == 0 {
                els[start].1
            } else {
                last_value_in(tags[k], els, start + 1, end)
            },
    )
}

/// Where record `j`'s span of field elements ends: at the next sentinel, or
/// at the end of the document for the last record.
pub open spec fn span_end(s: Seq<char>, els: Seq<(Seq<char>, Seq<char>)>, j: int) -> int {
    let p = positions_of(s, els);
    if j + 1 < p.len() {
        p[j + 1]
    } else {
        els.len() as int
    }
}

/// Sentinel-grouping reconstruction: one record per occurrence of the
/// sentinel tag `tags[0]`, in document order, each built from the span
/// between its sentinel and the next.
pub open spec fn sentinel_group_spec(
    tags: Seq<Seq<char>>,
    els: Seq<(Seq<char>, Seq<char>)>,
) -> Seq<Seq<Seq<char>>> {
    let p = positions_of(tags[0], els);
    Seq::new(p.len(), |j: int| record_of(tags, els, p[j], span_end(tags[0], els, j)))
}

/// The texts of all elements tagged `t`, in document order: one parallel
/// column.
pub open spec fn column_of(t: Seq<char>, els: Seq<(Seq<char>, Seq<char>)>) -> Seq<Seq<char>>
    decreases els.len(),
{
    if els.len() == 0 {
        Seq::empty()
    } else {
        let c = column_of(t, els.drop_last());
        if els.last().0 == t {
            c.push(els.last().1)
        } else {
            c
        }
    }
}

/// Parallel-column reconstruction: the record count is the length of the
/// reference column `tags[0]`; record `i`'s field `k` is entry `i` of the
/// column of `tags[k]`, or empty text where that column is shorter.
pub open spec fn parallel_group_spec(
    tags: Seq<Seq<char>>,
    els: Seq<(Seq<char>, Seq<char>)>,
) -> Seq<Seq<Seq<char>>> {
    let n = column_of(tags[0], els).len();
    Seq::new(
        n,
        |i: int|
            Seq::new(
                tags.len(),
                |k: int|
                    {
                        let c = column_of(tags[k], els);
                        if i < c.len() {
                            c[i]
                        } else {
                            Seq::empty()
                        }
                    },
            ),
    )
}

// ---------------------------------------------------------------------------
// Lemmas about the model
// ---------------------------------------------------------------------------

proof fn lemma_positions_step(s: Seq<char>, els: Seq<(Seq<char>, Seq<char>)>, i: int)
    requires
        0 <= i < els.len(),
    ensures
        positions_of(s, els.take(i + 1)) == if els[i].0 == s {
            positions_of(s, els.take(i)).push(i)
        } else {
            positions_of(s, els.take(i))
        },
{
    assert(els.take(i + 1).drop_last() =~= els.take(i));
    assert(els.take(i + 1).last() == els[i]);
}

proof fn lemma_column_step(t: Seq<char>, els: Seq<(Seq<char>, Seq<char>)>, i: int)
    requires
        0 <= i < els.len(),
    ensures
        column_of(t, els.take(i + 1)) == if els[i].0 == t {
            column_of(t, els.take(i)).push(els[i].1)
        } else {
            column_of(t, els.take(i))
        },
{
    assert(els.take(i + 1).drop_last() =~= els.take(i));
    assert(els.take(i + 1).last() == els[i]);
}

/// The sentinel positions are exactly the indices of the sentinel-tagged
/// elements, listed in increasing order.
pub proof fn lemma_positions_of_correct(s: Seq<char>, els: Seq<(Seq<char>, Seq<char>)>)
    ensures
        forall|j: int|
            0 <= j < positions_of(s, els).len() ==> 0 <= #[trigger] positions_of(s, els)[j]
                < els.len() && els[positions_of(s, els)[j]].0 == s,
        forall|j1: int, j2: int|
            0 <= j1 < j2 < positions_of(s, els).len() ==> positions_of(s, els)[j1] < positions_of(
                s,
                els,
            )[j2],
        forall|m: int|
            0 <= m < els.len() && els[m].0 == s ==> #[trigger] positions_of(s, els).contains(m),
    decreases els.len(),
{
    if els.len() > 0 {
        let prev = els.drop_last();
        lemma_positions_of_correct(s, prev);
        let p0 = positions_of(s, prev);
        let p = positions_of(s, els);
        assert forall|m: int| 0 <= m < els.len() && els[m].0 == s implies #[trigger] p.contains(
            m,
        ) by {
            if m < els.len() - 1 {
                assert(prev[m] == els[m]);
                assert(p0.contains(m));
                let j = choose|j: int| 0 <= j < p0.len() && p0[j] == m;
                assert(p[j] == m);
            } else {
                assert(p.last() == m);
            }
        }
    }
}

/// Where no element of `els[lo..hi]` is tagged `t`, the last value there is
/// the empty text.
pub proof fn lemma_last_value_none(
    t: Seq<char>,
    els: Seq<(Seq<char>, Seq<char>)>,
    lo: int,
    hi: int,
)
    requires
        forall|m: int| lo <= m < hi ==> (#[trigger] els[m]).0 != t,
    ensures
        last_value_in(t, els, lo, hi) == Seq::<char>::empty(),
    decreases hi - lo,
{
    if lo < hi {
        lemma_last_value_none(t, els, lo, hi - 1);
    }
}

/// The last value in `els[lo..hi]` for tag `t` is the text of the last
/// element there tagged `t`.
pub proof fn lemma_last_value_hit(
    t: Seq<char>,
    els: Seq<(Seq<char>, Seq<char>)>,
    lo: int,
    hi: int,
    m: int,
)
    requires
        lo <= m < hi,
        els[m].0 == t,
        forall|m2: int| m < m2 < hi ==> (#[trigger] els[m2]).0 != t,
    ensures
        last_value_in(t, els, lo, hi) == els[m].1,
    decreases hi - lo,
{
    if m < hi - 1 {
        lemma_last_value_hit(t, els, lo, hi - 1, m);
    }
}

// ---------------------------------------------------------------------------
// The executable reconstructors
// ---------------------------------------------------------------------------

/// The index of the first configured tag equal to `t`, if any.
fn find_tag(tags: &Vec<String>, t: &String) -> (r: Option<usize>)
    ensures
        match r {
            Some(k) => k < tags@.len() && tags@[k as int]@ == t@ && forall|j: int|
                0 <= j < k ==> (#[trigger] tags@[j])@ != t@,
            None => forall|j: int| 0 <= j < tags@.len() ==> (#[trigger] tags@[j])@ != t@,
        },
{
    let mut k: usize = 0;
    while k < tags.len()
        invariant
            k <= tags@.len(),
            forall|j: int| 0 <= j < k ==> (#[trigger] tags@[j])@ != t@,
        decreases tags@.len() - k,
    {
        if tags[k].eq(t) {
            return Some(k);
        }
        k += 1;
    }
    None
}

/// A record with its sentinel field set and every other field empty.
fn fresh_record(n: usize, sentinel_text: &String) -> (r: Vec<String>)
    requires
        n >= 1,
    ensures
        r@.len() == n,
        r@[0]@ == sentinel_text@,
        forall|j: int| 1 <= j < n ==> (#[trigger] r@[j])@ == Seq::<char>::empty(),
{
    let mut r: Vec<String> = Vec::new();
    r.push(sentinel_text.clone());
    let mut k: usize = 1;
    while k < n
        invariant
            1 <= k <= n,
            r@.len() == k,
            r@[0]@ == sentinel_text@,
            forall|j: int| 1 <= j < k ==> (#[trigger] r@[j])@ == Seq::<char>::empty(),
        decreases n - k,
    {
        r.push(String::new());
        k += 1;
    }
    r
}

/// Sentinel-grouping reconstruction. Each occurrence of `tags[0]` closes the
/// record in progress, if any, and opens a new one; every other configured
/// tag overwrites the corresponding field of the record in progress
/// (last write wins), and is silently discarded where no record is open;
/// unrecognized tags are ignored. The record still in progress at the end of
/// the stream is kept.
pub fn sentinel_group(tags: &Vec<String>, els: &Vec<Element>) -> (out: Vec<Vec<String>>)
    requires
        tags@.len() >= 1,
        distinct_tags(strs_view(tags@)),
    ensures
        rows_view(out@) == sentinel_group_spec(strs_view(tags@), elems_view(els@)),
{
    let ghost stags = strs_view(tags@);
    let ghost sels = elems_view(els@);
    let mut out: Vec<Vec<String>> = Vec::new();
    let mut cur: Option<Vec<String>> = None;
    let mut i: usize = 0;
    proof {
        assert(sels.take(0) =~= Seq::<(Seq<char>, Seq<char>)>::empty());
    }
    while i < els.len()
        invariant
            i <= els@.len(),
            sels.len() == els@.len(),
            stags == strs_view(tags@),
            sels == elems_view(els@),
            tags@.len() >= 1,
            distinct_tags(stags),
            ({
                let p = positions_of(stags[0], sels.take(i as int));
                &&& out@.len() + (if cur is Some {
                    1int
                } else {
                    0int
                }) == p.len()
                &&& (cur is Some <==> p.len() > 0)
                &&& forall|j: int|
                    0 <= j < out@.len() ==> rows_view(out@)[j] == record_of(
                        stags,
                        sels,
                        p[j],
                        p[j + 1],
                    )
                &&& match cur {
                    Some(r) => strs_view(r@) == record_of(stags, sels, p.last(), i as int)
                        && r@.len() == tags@.len(),
                    None => true,
                }
            }),
        decreases els@.len() - i,
    {
        let ghost p = positions_of(stags[0], sels.take(i as int));
        let e = &els[i];
        proof {
            assert(sels[i as int] == (e.tag@, e.text@));
            lemma_positions_step(stags[0], sels, i as int);
        }
        match find_tag(tags, &e.tag) {
            Some(k) => {
                if k == 0 {
                    // A sentinel: flush the record in progress, open a new one.
                    let r = fresh_record(tags.len(), &e.text);
                    proof {
                        let p2 = positions_of(stags[0], sels.take(i as int + 1));
                        assert(p2 == p.push(i as int));
                        assert(strs_view(r@) =~= record_of(stags, sels, i as int, i as int + 1));
                    }
                    let prev = cur;
                    cur = Some(r);
                    match prev {
                        Some(done) => {
                            let ghost out0 = out@;
                            out.push(done);
                            proof {
                                let p2 = positions_of(stags[0], sels.take(i as int + 1));
                                assert(rows_view(out@) =~= rows_view(out0).push(
                                    strs_view(done@),
                                ));
                                assert forall|j: int| 0 <= j < out@.len() implies rows_view(
                                    out@,
                                )[j] == record_of(stags, sels, p2[j], p2[j + 1]) by {
                                    if j < out@.len() - 1 {
                                        assert(rows_view(out@)[j] == rows_view(out0)[j]);
                                        assert(p2[j] == p[j] && p2[j + 1] == p[j + 1]);
                                    } else {
                                        assert(p2[j] == p.last() && p2[j + 1] == i as int);
                                    }
                                }
                            }
                        },
                        None => {},
                    }
                } else {
                    // A field tag: overwrite that field of the record in
                    // progress; with none open, the value is discarded.
                    let prev = cur;
                    match prev {
                        Some(mut r) => {
                            let ghost r0 = r@;
                            r[k] = e.text.clone();
                            proof {
                                let lo = p.last();
                                lemma_positions_of_correct(stags[0], sels.take(i as int));
                                assert(lo == p[p.len() - 1] && 0 <= lo < i as int);
                                assert(strs_view(r@) =~= strs_view(r0).update(
                                    k as int,
                                    e.text@,
                                ));
                                assert(strs_view(r@) =~= record_of(
                                    stags,
                                    sels,
                                    lo,
                                    i as int + 1,
                                )) by {
                                    assert(sels[i as int].0 == stags[k as int]);
                                    assert forall|kk: int| 0 <= kk < stags.len() implies strs_view(
                                        r@,
                                    )[kk] == record_of(stags, sels, lo, i as int + 1)[kk] by {
                                        assert(strs_view(r0)[kk] == record_of(
                                            stags,
                                            sels,
                                            lo,
                                            i as int,
                                        )[kk]);
                                        if kk == k {
                                            assert(last_value_in(stags[kk], sels, lo + 1, i as int + 1)
                                                == sels[i as int].1);
                                        } else if kk != 0 {
                                            assert(stags[kk] != stags[k as int]);
                                            assert(last_value_in(stags[kk], sels, lo + 1, i as int + 1)
                                                == last_value_in(stags[kk], sels, lo + 1, i as int));
                                        }
                                    }
                                }
                            }
                            cur = Some(r);
                        },
                        None => {
                            cur = None;
                        },
                    }
                    proof {
                        assert(stags[k as int] != stags[0]);
                        assert(positions_of(stags[0], sels.take(i as int + 1)) == p);
                    }
                }
            },
            None => {
                proof {
                    assert(positions_of(stags[0], sels.take(i as int + 1)) == p);
                    match &cur {
                        Some(r) => {
                            assert(strs_view(r@) =~= record_of(
                                stags,
                                sels,
                                p.last(),
                                i as int + 1,
                            ));
                        },
                        None => {},
                    }
                }
            },
        }
        i += 1;
    }
    // End of stream: the record still in progress yields the final record.
    proof {
        assert(sels.take(i as int) =~= sels);
    }
    let ghost p = positions_of(stags[0], sels);
    match cur {
        Some(done) => {
            let ghost out0 = out@;
            out.push(done);
            proof {
                assert(rows_view(out@) =~= rows_view(out0).push(strs_view(done@)));
                assert(rows_view(out@) =~= sentinel_group_spec(stags, sels)) by {
                    assert forall|j: int| 0 <= j < out@.len() implies rows_view(out@)[j]
                        == record_of(stags, sels, p[j], span_end(stags[0], sels, j)) by {
                        if j < out@.len() - 1 {
                            assert(rows_view(out@)[j] == rows_view(out0)[j]);
                        }
                    }
                }
            }
        },
        None => {
            proof {
                assert(rows_view(out@) =~= sentinel_group_spec(stags, sels));
            }
        },
    }
    out
}

/// Parallel-column reconstruction. Every configured tag appends its text to
/// a same-named column, in document order and independent of record
/// boundaries; the records are then zipped together by position, with the
/// column of `tags[0]` as the reference for the record count and empty text
/// where a column runs short.
pub fn parallel_group(tags: &Vec<String>, els: &Vec<Element>) -> (out: Vec<Vec<String>>)
    requires
        tags@.len() >= 1,
    ensures
        rows_view(out@) == parallel_group_spec(strs_view(tags@), elems_view(els@)),
{
    let ghost stags = strs_view(tags@);
    let ghost sels = elems_view(els@);
    let mut columns: Vec<Vec<String>> = Vec::new();
    let mut k: usize = 0;
    while k < tags.len()
        invariant
            k <= tags@.len(),
            stags == strs_view(tags@),
            sels == elems_view(els@),
            columns@.len() == k,
            forall|kk: int|
                0 <= kk < k ==> strs_view((#[trigger] columns@[kk])@) == column_of(
                    stags[kk],
                    sels,
                ),
        decreases tags@.len() - k,
    {
        let mut col: Vec<String> = Vec::new();
        let mut i: usize = 0;
        proof {
            assert(sels.take(0) =~= Seq::<(Seq<char>, Seq<char>)>::empty());
        }
        while i < els.len()
            invariant
                i <= els@.len(),
                sels.len() == els@.len(),
                k < tags@.len(),
                stags == strs_view(tags@),
                sels == elems_view(els@),
                strs_view(col@) == column_of(stags[k as int], sels.take(i as int)),
            decreases els@.len() - i,
        {
            let e = &els[i];
            proof {
                assert(sels[i as int] == (e.tag@, e.text@));
                lemma_column_step(stags[k as int], sels, i as int);
            }
            if e.tag.eq(&tags[k]) {
                let ghost col0 = col@;
                col.push(e.text.clone());
                proof {
                    assert(strs_view(col@) =~= strs_view(col0).push(e.text@));
                }
            }
            i += 1;
        }
        proof {
            assert(sels.take(i as int) =~= sels);
        }
        columns.push(col);
        k += 1;
    }
    // Zip the columns together by position.
    let n = columns[0].len();
    proof {
        assert(n == column_of(stags[0], sels).len());
    }
    let mut out: Vec<Vec<String>> = Vec::new();
    let mut i: usize = 0;
    while i < n
        invariant
            i <= n,
            n == column_of(stags[0], sels).len(),
            tags@.len() >= 1,
            stags == strs_view(tags@),
            sels == elems_view(els@),
            columns@.len() == tags@.len(),
            forall|kk: int|
                0 <= kk < tags@.len() ==> strs_view((#[trigger] columns@[kk])@) == column_of(
                    stags[kk],
                    sels,
                ),
            out@.len() == i,
            forall|ii: int|
                0 <= ii < i ==> rows_view(out@)[ii] == parallel_group_spec(stags, sels)[ii],
        decreases n - i,
    {
        let mut row: Vec<String> = Vec::new();
        let mut kk: usize = 0;
        while kk < columns.len()
            invariant
                kk <= columns@.len(),
                i < n,
                n == column_of(stags[0], sels).len(),
                stags == strs_view(tags@),
                sels == elems_view(els@),
                columns@.len() == tags@.len(),
                tags@.len() >= 1,
                forall|k2: int|
                    0 <= k2 < tags@.len() ==> strs_view((#[trigger] columns@[k2])@) == column_of(
                        stags[k2],
                        sels,
                    ),
                row@.len() == kk,
                forall|k2: int|
                    0 <= k2 < kk ==> strs_view(row@)[k2] == ({
                        let c = column_of(stags[k2], sels);
                        if i < c.len() {
                            c[i as int]
                        } else {
                            Seq::<char>::empty()
                        }
                    }),
            decreases columns@.len() - kk,
        {
            let cl = &columns[kk];
            let ghost row0 = row@;
            let ghost c = column_of(stags[kk as int], sels);
            proof {
                assert(strs_view(cl@) == c);
                assert(cl@.len() == c.len());
            }
            if i < cl.len() {
                row.push(cl[i].clone());
                proof {
                    assert(strs_view(row@)[kk as int] == cl@[i as int]@);
                    assert(cl@[i as int]@ == strs_view(cl@)[i as int]);
                }
            } else {
                row.push(String::new());
                proof {
                    assert(strs_view(row@)[kk as int] == Seq::<char>::empty());
                }
            }
            proof {
                assert forall|k2: int| 0 <= k2 < kk as int + 1 implies strs_view(row@)[k2] == ({
                    let c2 = column_of(stags[k2], sels);
                    if i < c2.len() {
                        c2[i as int]
                    } else {
                        Seq::<char>::empty()
                    }
                }) by {
                    if k2 < kk as int {
                        assert(strs_view(row@)[k2] == strs_view(row0)[k2]);
                    } else {
                        assert(c == column_of(stags[k2], sels));
                    }
                }
            }
            kk += 1;
        }
        let ghost out0 = out@;
        out.push(row);
        proof {
            assert(rows_view(out@) =~= rows_view(out0).push(strs_view(row@)));
            assert(strs_view(row@) =~= parallel_group_spec(stags, sels)[i as int]);
        }
        i += 1;
    }
    proof {
        assert(rows_view(out@) =~= parallel_group_spec(stags, sels));
    }
    out
}

// ---------------------------------------------------------------------------
// Laws of the reconstruction strategies
// ---------------------------------------------------------------------------

/// One record per sentinel occurrence, in document order: the output has
/// exactly as many records as there are sentinel-tagged elements, and the
/// `j`-th record's sentinel field holds the text of the `j`-th such element.
pub proof fn lemma_sentinel_ordering(tags: Seq<Seq<char>>, els: Seq<(Seq<char>, Seq<char>)>)
    requires
        tags.len() >= 1,
    ensures
        sentinel_group_spec(tags, els).len() == positions_of(tags[0], els).len(),
        forall|j: int|
            0 <= j < positions_of(tags[0], els).len() ==> #[trigger] sentinel_group_spec(
                tags,
                els,
            )[j][0] == els[positions_of(tags[0], els)[j]].1,
{
}

/// A field element standing in record `j`'s span is attributed to record
/// `j` and to no other: where it is the last element of its tag in the span,
/// record `j`'s field holds its text.
pub proof fn lemma_field_association(
    tags: Seq<Seq<char>>,
    els: Seq<(Seq<char>, Seq<char>)>,
    j: int,
    k: int,
    m: int,
)
    requires
        tags.len() >= 1,
        1 <= k < tags.len(),
        0 <= j < positions_of(tags[0], els).len(),
        positions_of(tags[0], els)[j] < m < span_end(tags[0], els, j),
        els[m].0 == tags[k],
        forall|m2: int| m < m2 < span_end(tags[0], els, j) ==> (#[trigger] els[m2]).0 != tags[k],
    ensures
        sentinel_group_spec(tags, els)[j][k] == els[m].1,
{
    lemma_last_value_hit(
        tags[k],
        els,
        positions_of(tags[0], els)[j] + 1,
        span_end(tags[0], els, j),
        m,
    );
}

/// Last write wins: where a field tag stands twice in one record's span,
/// the record's field holds the text of the later occurrence.
pub proof fn lemma_last_write_wins(
    tags: Seq<Seq<char>>,
    els: Seq<(Seq<char>, Seq<char>)>,
    j: int,
    k: int,
    m1: int,
    m2: int,
)
    requires
        tags.len() >= 1,
        1 <= k < tags.len(),
        0 <= j < positions_of(tags[0], els).len(),
        positions_of(tags[0], els)[j] < m1 < m2 < span_end(tags[0], els, j),
        els[m1].0 == tags[k],
        els[m2].0 == tags[k],
        forall|m3: int| m2 < m3 < span_end(tags[0], els, j) ==> (#[trigger] els[m3]).0 != tags[k],
    ensures
        sentinel_group_spec(tags, els)[j][k] == els[m2].1,
{
    lemma_field_association(tags, els, j, k, m2);
}

/// A sentinel with no later sentinel still yields a record: the last one,
/// built from every field element up to the end of the document.
pub proof fn lemma_trailing_record(tags: Seq<Seq<char>>, els: Seq<(Seq<char>, Seq<char>)>, m: int)
    requires
        tags.len() >= 1,
        0 <= m < els.len(),
        els[m].0 == tags[0],
        forall|m2: int| m < m2 < els.len() ==> (#[trigger] els[m2]).0 != tags[0],
    ensures
        positions_of(tags[0], els).len() >= 1,
        positions_of(tags[0], els).last() == m,
        sentinel_group_spec(tags, els).len() == positions_of(tags[0], els).len(),
        sentinel_group_spec(tags, els).last() == record_of(tags, els, m, els.len() as int),
{
    let p = positions_of(tags[0], els);
    lemma_positions_of_correct(tags[0], els);
    assert(p.contains(m));
    let j = choose|j: int| 0 <= j < p.len() && p[j] == m;
    assert forall|j2: int| 0 <= j2 < p.len() implies p[j2] <= m by {
        if p[j2] > m {
            assert(els[p[j2]].0 == tags[0]);
        }
    }
    assert(j == p.len() - 1) by {
        if j < p.len() - 1 {
            assert(p[j] < p[p.len() - 1]);
        }
    }
    assert(span_end(tags[0], els, j) == els.len());
}

/// A field tag that never stands in a record's span leaves that field as
/// empty text, not an error.
pub proof fn lemma_missing_field_empty(
    tags: Seq<Seq<char>>,
    els: Seq<(Seq<char>, Seq<char>)>,
    j: int,
    k: int,
)
    requires
        tags.len() >= 1,
        1 <= k < tags.len(),
        0 <= j < positions_of(tags[0], els).len(),
        forall|m: int|
            positions_of(tags[0], els)[j] < m < span_end(tags[0], els, j) ==> (#[trigger] els[m]).0
                != tags[k],
    ensures
        sentinel_group_spec(tags, els)[j][k] == Seq::<char>::empty(),
{
    lemma_last_value_none(
        tags[k],
        els,
        positions_of(tags[0], els)[j] + 1,
        span_end(tags[0], els, j),
    );
}

/// For the parallel strategy the record count equals the reference column's
/// length, and a column that runs short contributes empty text past its end.
pub proof fn lemma_parallel_count(tags: Seq<Seq<char>>, els: Seq<(Seq<char>, Seq<char>)>)
    requires
        tags.len() >= 1,
    ensures
        parallel_group_spec(tags, els).len() == column_of(tags[0], els).len(),
        forall|i: int, k: int|
            0 <= i < parallel_group_spec(tags, els).len() && 0 <= k < tags.len() && column_of(
                tags[k],
                els,
            ).len() <= i ==> #[trigger] parallel_group_spec(tags, els)[i][k]
                == Seq::<char>::empty(),
{
}


} // verus!
