//! The per-voucher ledger query: one record per ledger movement of a stock
//! item, reconstructed by sentinel grouping and then filtered down to
//! purchase vouchers — those whose type is exactly "Purc" or contains "GST".

use vstd::prelude::*;
use vstd::string::StringExecFns;

use crate::reconstruct::{
    distinct_tags, rows_view, sentinel_group, sentinel_group_spec, strs_view,
};
use crate::text::{contains_sub, spec_contains};
use crate::types::{Parser, ParserError};
use crate::xml_source::{elements_of, elems_view, parse_flat_elements, Element};

verus! {

/// The voucher query: the stock item and date range it asks about.
pub struct StockVouchersQuery {
    pub stock_item_name: String,
    pub from_date: String,
    pub to_date: String,
}

/// One ledger movement line of the voucher report.
#[derive(Debug, Clone)]
pub struct StockVoucher {
    pub date: String,
    pub voucher_type: String,
    pub qty_in: String,
    pub rate_in: String,
    pub amount_in: String,
    pub qty_out: String,
    pub rate_out: String,
    pub amount_out: String,
    pub closing_qty: String,
    pub closing_rate: String,
    pub closing_amount: String,
}

/// The aggregate result of the voucher query.
#[derive(Debug, Clone)]
pub struct StockVouchers {
    pub vouchers: Vec<StockVoucher>,
}

/// A voucher as the row its tags feed, in tag-configuration order.
pub open spec fn voucher_row(v: StockVoucher) -> Seq<Seq<char>> {
    seq![
        v.date@,
        v.voucher_type@,
        v.qty_in@,
        v.rate_in@,
        v.amount_in@,
        v.qty_out@,
        v.rate_out@,
        v.amount_out@,
        v.closing_qty@,
        v.closing_rate@,
        v.closing_amount@,
    ]
}

pub open spec fn voucher_rows(vs: Seq<StockVoucher>) -> Seq<Seq<Seq<char>>> {
    vs.map_values(|v: StockVoucher| voucher_row(v))
}

/// The voucher tag configuration: the date tag is the sentinel.
pub open spec fn voucher_tag_views() -> Seq<Seq<char>> {
    seq![
        "DSPVCHDATE"@,
        "DSPVCHTYPE"@,
        "DSPVCHINQTY"@,
        "DSPVCHINRATE"@,
        "DSPVCHINAMT"@,
        "DSPVCHOUTQTY"@,
        "DSPVCHOUTRATE"@,
        "DSPVCHNETTOUTAMT"@,
        "DSPVCHCLQTY"@,
        "DSPVCHCLRATE"@,
        "DSPVCHCLAMT"@,
    ]
}

pub fn voucher_tags() -> (tags: Vec<String>)
    ensures
        strs_view(tags@) == voucher_tag_views(),
        tags@.len() == 11,
{
    let mut v: Vec<String> = Vec::new();
    v.push("DSPVCHDATE".to_owned());
    v.push("DSPVCHTYPE".to_owned());
    v.push("DSPVCHINQTY".to_owned());
    v.push("DSPVCHINRATE".to_owned());
    v.push("DSPVCHINAMT".to_owned());
    v.push("DSPVCHOUTQTY".to_owned());
    v.push("DSPVCHOUTRATE".to_owned());
    v.push("DSPVCHNETTOUTAMT".to_owned());
    v.push("DSPVCHCLQTY".to_owned());
    v.push("DSPVCHCLRATE".to_owned());
    v.push("DSPVCHCLAMT".to_owned());
    proof {
        assert(strs_view(v@) =~= voucher_tag_views());
    }
    v
}

proof fn lemma_voucher_tags_distinct()
    ensures
        distinct_tags(voucher_tag_views()),
{
    reveal_strlit("DSPVCHDATE");
    reveal_strlit("DSPVCHTYPE");
    reveal_strlit("DSPVCHINQTY");
    reveal_strlit("DSPVCHINRATE");
    reveal_strlit("DSPVCHINAMT");
    reveal_strlit("DSPVCHOUTQTY");
    reveal_strlit("DSPVCHOUTRATE");
    reveal_strlit("DSPVCHNETTOUTAMT");
    reveal_strlit("DSPVCHCLQTY");
    reveal_strlit("DSPVCHCLRATE");
    reveal_strlit("DSPVCHCLAMT");
    let t = voucher_tag_views();
    assert(t[0].len() == 10 && t[1].len() == 10 && t[2].len() == 11 && t[3].len() == 12
        && t[4].len() == 11 && t[5].len() == 12 && t[6].len() == 13 && t[7].len() == 16
        && t[8].len() == 11 && t[9].len() == 12 && t[10].len() == 11);
    assert forall|a: int, b: int| 0 <= a < b < t.len() implies t[a] != t[b] by {
        if t[a].len() == t[b].len() {
            if t[a][6] == t[b][6] {
                assert(t[a][8] != t[b][8]);
            }
        } else {
            assert(t[a].len() != t[b].len());
        }
    }
}

/// A voucher survives the filter when its type is exactly "Purc" or
/// contains "GST".
pub open spec fn keep_voucher_text(vt: Seq<char>) -> bool {
    vt == "Purc"@ || spec_contains(vt, "GST"@)
}

/// The filter's view of a reconstructed row: the voucher type is field 1.
pub open spec fn keep_row(row: Seq<Seq<char>>) -> bool {
    keep_voucher_text(row[1])
}

/// The rows the filter keeps, in their original order.
pub open spec fn keep_rows(rows: Seq<Seq<Seq<char>>>) -> Seq<Seq<Seq<char>>>
    decreases rows.len(),
{
    if rows.len() == 0 {
        Seq::empty()
    } else {
        let k = keep_rows(rows.drop_last());
        if keep_row(rows.last()) {
            k.push(rows.last())
        } else {
            k
        }
    }
}

/// The indices, in increasing order, of the rows the filter keeps.
pub open spec fn kept_indices(rows: Seq<Seq<Seq<char>>>) -> Seq<int>
    decreases rows.len(),
{
    if rows.len() == 0 {
        Seq::empty()
    } else {
        let p = kept_indices(rows.drop_last());
        if keep_row(rows.last()) {
            p.push(rows.len() - 1)
        } else {
            p
        }
    }
}

proof fn lemma_keep_rows_step(rows: Seq<Seq<Seq<char>>>, i: int)
    requires
        0 <= i < rows.len(),
    ensures
        keep_rows(rows.take(i + 1)) == if keep_row(rows[i]) {
            keep_rows(rows.take(i)).push(rows[i])
        } else {
            keep_rows(rows.take(i))
        },
{
    assert(rows.take(i + 1).drop_last() =~= rows.take(i));
    assert(rows.take(i + 1).last() == rows[i]);
}

/// The filter is sound, complete and order-preserving: its output lists
/// exactly the rows that satisfy the keep predicate, by increasing original
/// index.
pub proof fn lemma_filter_correct(rows: Seq<Seq<Seq<char>>>)
    ensures
        keep_rows(rows).len() == kept_indices(rows).len(),
        forall|j: int|
            0 <= j < kept_indices(rows).len() ==> 0 <= #[trigger] kept_indices(rows)[j]
                < rows.len(),
        forall|j: int|
            0 <= j < keep_rows(rows).len() ==> #[trigger] keep_rows(rows)[j] == rows[kept_indices(
                rows,
            )[j]] && keep_row(keep_rows(rows)[j]),
        forall|j1: int, j2: int|
            0 <= j1 < j2 < kept_indices(rows).len() ==> kept_indices(rows)[j1] < kept_indices(
                rows,
            )[j2],
        forall|i: int|
            0 <= i < rows.len() ==> (keep_row(#[trigger] rows[i]) <==> kept_indices(
                rows,
            ).contains(i)),
    decreases rows.len(),
{
    if rows.len() > 0 {
        let prev = rows.drop_last();
        lemma_filter_correct(prev);
        let p0 = kept_indices(prev);
        let p = kept_indices(rows);
        assert forall|i: int| 0 <= i < rows.len() implies (keep_row(#[trigger] rows[i])
            <==> p.contains(i)) by {
            if i < rows.len() - 1 {
                assert(prev[i] == rows[i]);
                if keep_row(rows[i]) {
                    assert(p0.contains(i));
                    let j = choose|j: int| 0 <= j < p0.len() && p0[j] == i;
                    assert(p[j] == i);
                    assert(p.contains(i));
                }
                if p.contains(i) {
                    let j = choose|j: int| 0 <= j < p.len() && p[j] == i;
                    assert(j < p0.len());
                    assert(p0.contains(i));
                }
            } else {
                if keep_row(rows[i]) {
                    assert(p.last() == i);
                    assert(p.contains(i));
                }
                if p.contains(i) {
                    let j = choose|j: int| 0 <= j < p.len() && p[j] == i;
                    if j < p0.len() {
                        assert(p0[j] == i);
                        assert(false);
                    }
                }
            }
        }
    }
}

/// Whether one voucher type passes the filter.
pub fn keep_voucher(vt: &String) -> (r: bool)
    ensures
        r == keep_voucher_text(vt@),
{
    let purc = "Purc".to_owned();
    if vt.eq(&purc) {
        true
    } else {
        contains_sub(vt.as_str(), "GST")
    }
}

/// Retain, in order, the vouchers whose type passes the filter.
pub fn filter_vouchers(vs: Vec<StockVoucher>) -> (out: Vec<StockVoucher>)
    ensures
        voucher_rows(out@) == keep_rows(voucher_rows(vs@)),
{
    let ghost orig = vs@;
    let ghost rws = voucher_rows(orig);
    let mut vs = vs;
    let mut out: Vec<StockVoucher> = Vec::new();
    proof {
        assert(rws.take(0) =~= Seq::<Seq<Seq<char>>>::empty());
    }
    while vs.len() > 0
        invariant
            vs@.len() <= orig.len(),
            rws == voucher_rows(orig),
            rws.len() == orig.len(),
            vs@ == orig.skip(orig.len() - vs@.len()),
            voucher_rows(out@) == keep_rows(rws.take(orig.len() - vs@.len())),
        decreases vs@.len(),
    {
        let ghost i = orig.len() - vs@.len();
        let v = vs.remove(0);
        proof {
            assert(orig.skip(i)[0] == orig[i as int]);
            assert(vs@ =~= orig.skip(i + 1));
            assert(orig.len() - vs@.len() == i + 1);
            lemma_keep_rows_step(rws, i as int);
            assert(rws[i as int] == voucher_row(orig[i as int]));
            assert(keep_row(rws[i as int]) == keep_voucher_text(orig[i as int].voucher_type@));
        }
        let keep = keep_voucher(&v.voucher_type);
        if keep {
            let ghost out0 = out@;
            out.push(v);
            proof {
                assert(voucher_rows(out@) =~= voucher_rows(out0).push(
                    voucher_row(orig[i as int]),
                ));
            }
        }
    }
    proof {
        assert(rws.take(orig.len() as int) =~= rws);
    }
    out
}

fn vouchers_of_rows(rows: &Vec<Vec<String>>) -> (out: Vec<StockVoucher>)
    requires
        forall|j: int| 0 <= j < rows@.len() ==> (#[trigger] rows@[j])@.len() == 11,
    ensures
        voucher_rows(out@) == rows_view(rows@),
{
    let mut out: Vec<StockVoucher> = Vec::new();
    let mut j: usize = 0;
    while j < rows.len()
        invariant
            j <= rows@.len(),
            forall|jj: int| 0 <= jj < rows@.len() ==> (#[trigger] rows@[jj])@.len() == 11,
            out@.len() == j,
            forall|jj: int| 0 <= jj < j ==> voucher_rows(out@)[jj] == rows_view(rows@)[jj],
        decreases rows@.len() - j,
    {
        let r = &rows[j];
        let v = StockVoucher {
            date: r[0].clone(),
            voucher_type: r[1].clone(),
            qty_in: r[2].clone(),
            rate_in: r[3].clone(),
            amount_in: r[4].clone(),
            qty_out: r[5].clone(),
            rate_out: r[6].clone(),
            amount_out: r[7].clone(),
            closing_qty: r[8].clone(),
            closing_rate: r[9].clone(),
            closing_amount: r[10].clone(),
        };
        proof {
            assert(voucher_row(v) =~= strs_view(r@));
        }
        let ghost out0 = out@;
        out.push(v);
        proof {
            assert(forall|jj: int|
                0 <= jj < out0.len() ==> voucher_rows(out@)[jj] == voucher_rows(out0)[jj]);
        }
        j += 1;
    }
    proof {
        assert(voucher_rows(out@) =~= rows_view(rows@));
    }
    out
}

impl StockVouchersQuery {
    /// Reconstruction and filtering of the voucher report from its flat
    /// element stream: sentinel grouping, then the purchase filter.
    pub fn from_elements(els: &Vec<Element>) -> (out: StockVouchers)
        ensures
            voucher_rows(out.vouchers@) == keep_rows(
                sentinel_group_spec(voucher_tag_views(), elems_view(els@)),
            ),
    {
        proof {
            lemma_voucher_tags_distinct();
        }
        let tags = voucher_tags();
        let rows = sentinel_group(&tags, els);
        proof {
            assert forall|j: int| 0 <= j < rows@.len() implies (#[trigger] rows@[j])@.len()
                == 11 by {
                assert(voucher_tag_views().len() == 11);
                assert(rows_view(rows@).len() == sentinel_group_spec(
                    voucher_tag_views(),
                    elems_view(els@),
                ).len());
                assert(rows_view(rows@)[j] == sentinel_group_spec(
                    voucher_tag_views(),
                    elems_view(els@),
                )[j]);
                assert(sentinel_group_spec(voucher_tag_views(), elems_view(els@))[j].len() == 11);
                assert(rows_view(rows@)[j] == strs_view(rows@[j]@));
                assert(strs_view(rows@[j]@).len() == rows@[j]@.len());
            }
        }
        let vs = vouchers_of_rows(&rows);
        let kept = filter_vouchers(vs);
        StockVouchers { vouchers: kept }
    }
}

impl Parser for StockVouchersQuery {
    type Output = StockVouchers;

    open spec fn good_output(&self, els: Seq<(Seq<char>, Seq<char>)>, out: StockVouchers) -> bool {
        voucher_rows(out.vouchers@) == keep_rows(
            sentinel_group_spec(voucher_tag_views(), els),
        )
    }

    open spec fn spec_request(&self) -> Seq<char> {
        "<ENVELOPE>
    <HEADER>
        <VERSION>1</VERSION>
        <TALLYREQUEST>Export</TALLYREQUEST>
        <TYPE>Data</TYPE>
        <ID>Stock Vouchers</ID>
    </HEADER>
    <BODY>
        <DESC>
            <STATICVARIABLES>
                <SVEXPORTFORMAT>$$SysName:XML</SVEXPORTFORMAT>
                <STOCKITEMNAME>"@ + self.stock_item_name@
            + "</STOCKITEMNAME>
                <SVFROMDATE>"@ + self.from_date@ + "</SVFROMDATE>
                <SVTODATE>"@ + self.to_date@
            + "</SVTODATE>
            </STATICVARIABLES>
        </DESC>
    </BODY>
</ENVELOPE>"@
    }

    fn request_xml(&self) -> (r: String) {
        let mut r = String::new();
        r.append(
            "<ENVELOPE>
    <HEADER>
        <VERSION>1</VERSION>
        <TALLYREQUEST>Export</TALLYREQUEST>
        <TYPE>Data</TYPE>
        <ID>Stock Vouchers</ID>
    </HEADER>
    <BODY>
        <DESC>
            <STATICVARIABLES>
                <SVEXPORTFORMAT>$$SysName:XML</SVEXPORTFORMAT>
                <STOCKITEMNAME>",
        );
        r.append(self.stock_item_name.as_str());
        r.append(
            "</STOCKITEMNAME>
                <SVFROMDATE>",
        );
        r.append(self.from_date.as_str());
        r.append("</SVFROMDATE>
                <SVTODATE>");
        r.append(self.to_date.as_str());
        r.append(
            "</SVTODATE>
            </STATICVARIABLES>
        </DESC>
    </BODY>
</ENVELOPE>",
        );
        proof {
            assert(r@ =~= self.spec_request());
        }
        r
    }

    fn parse(&self, xml: &str) -> (r: Result<StockVouchers, ParserError>) {
        match parse_flat_elements(xml) {
            Ok(els) => Ok(StockVouchersQuery::from_elements(&els)),
            Err(e) => Err(ParserError::XmlParse(e)),
        }
    }
}

} // verus!
