//! The stock-item query: purchases, sales and godown batch positions for
//! one stock item, reconstructed from the flat report export. The
//! sentinel-grouping strategy is canonical; the positional parallel-column
//! strategy of an earlier iteration is kept as an explicit alternative.

use vstd::prelude::*;

use crate::reconstruct::{
    distinct_tags, parallel_group, parallel_group_spec, rows_view, sentinel_group,
    sentinel_group_spec, strs_view,
};
use crate::types::{Parser, ParserError};
use crate::xml_source::{elements_of, elems_view, parse_flat_elements, xml_well_formed, Element};

verus! {

/// The stock-item query itself; it carries no parameters of its own.
pub struct StockQuery;

/// One purchase line of the stock-item report.
#[derive(Debug, Clone)]
pub struct Purchase {
    pub date: String,
    pub party: String,
    pub qty: String,
    pub rate: String,
    pub amount: String,
}

/// One sales line of the stock-item report.
#[derive(Debug, Clone)]
pub struct Sale {
    pub date: String,
    pub party: String,
    pub qty: String,
    pub rate: String,
    pub amount: String,
}

/// One godown/batch stock position of the stock-item report.
#[derive(Debug, Clone)]
pub struct Batch {
    pub godown: String,
    pub batch_name: String,
    pub qty: String,
}

/// The aggregate result of the stock-item query.
#[derive(Debug, Clone)]
pub struct StockItem {
    pub purchases: Vec<Purchase>,
    pub sales: Vec<Sale>,
    pub batches: Vec<Batch>,
}

/// A purchase as the row its tags feed, in tag-configuration order.
pub open spec fn purchase_row(p: Purchase) -> Seq<Seq<char>> {
    seq![p.date@, p.party@, p.qty@, p.rate@, p.amount@]
}

pub open spec fn purchase_rows(ps: Seq<Purchase>) -> Seq<Seq<Seq<char>>> {
    ps.map_values(|p: Purchase| purchase_row(p))
}

/// A sale as the row its tags feed, in tag-configuration order.
pub open spec fn sale_row(s: Sale) -> Seq<Seq<char>> {
    seq![s.date@, s.party@, s.qty@, s.rate@, s.amount@]
}

pub open spec fn sale_rows(ss: Seq<Sale>) -> Seq<Seq<Seq<char>>> {
    ss.map_values(|s: Sale| sale_row(s))
}

/// A batch position as the row its tags feed, in tag-configuration order.
pub open spec fn batch_row(b: Batch) -> Seq<Seq<char>> {
    seq![b.godown@, b.batch_name@, b.qty@]
}

pub open spec fn batch_rows(bs: Seq<Batch>) -> Seq<Seq<Seq<char>>> {
    bs.map_values(|b: Batch| batch_row(b))
}

/// The purchase tag configuration: the date tag is the sentinel.
pub open spec fn purchase_tag_views() -> Seq<Seq<char>> {
    seq![
        "STQPURCDATE"@,
        "STQPURCPARTY"@,
        "STQPURCVCHQTY"@,
        "STQPURCVCHRATE"@,
        "STQPURCVCHAMOUNT"@,
    ]
}

/// The sales tag configuration: the date tag is the sentinel.
pub open spec fn sale_tag_views() -> Seq<Seq<char>> {
    seq![
        "STQSALESDATE"@,
        "STQSALESVCHNO"@,
        "STQSALESVCHQTY"@,
        "STQSALESVCHRATE"@,
        "STQSALESVCHAMOUNT"@,
    ]
}

/// The batch tag configuration: the godown name tag is the sentinel.
pub open spec fn batch_tag_views() -> Seq<Seq<char>> {
    seq!["STQGODOWNNAME"@, "STQBATCHNAME"@, "STQGODOWNQTY"@]
}

pub fn purchase_tags() -> (tags: Vec<String>)
    ensures
        strs_view(tags@) == purchase_tag_views(),
        tags@.len() == 5,
{
    let mut v: Vec<String> = Vec::new();
    v.push("STQPURCDATE".to_owned());
    v.push("STQPURCPARTY".to_owned());
    v.push("STQPURCVCHQTY".to_owned());
    v.push("STQPURCVCHRATE".to_owned());
    v.push("STQPURCVCHAMOUNT".to_owned());
    proof {
        assert(strs_view(v@) =~= purchase_tag_views());
    }
    v
}

pub fn sale_tags() -> (tags: Vec<String>)
    ensures
        strs_view(tags@) == sale_tag_views(),
        tags@.len() == 5,
{
    let mut v: Vec<String> = Vec::new();
    v.push("STQSALESDATE".to_owned());
    v.push("STQSALESVCHNO".to_owned());
    v.push("STQSALESVCHQTY".to_owned());
    v.push("STQSALESVCHRATE".to_owned());
    v.push("STQSALESVCHAMOUNT".to_owned());
    proof {
        assert(strs_view(v@) =~= sale_tag_views());
    }
    v
}

pub fn batch_tags() -> (tags: Vec<String>)
    ensures
        strs_view(tags@) == batch_tag_views(),
        tags@.len() == 3,
{
    let mut v: Vec<String> = Vec::new();
    v.push("STQGODOWNNAME".to_owned());
    v.push("STQBATCHNAME".to_owned());
    v.push("STQGODOWNQTY".to_owned());
    proof {
        assert(strs_view(v@) =~= batch_tag_views());
    }
    v
}

proof fn lemma_purchase_tags_distinct()
    ensures
        distinct_tags(purchase_tag_views()),
{
    reveal_strlit("STQPURCDATE");
    reveal_strlit("STQPURCPARTY");
    reveal_strlit("STQPURCVCHQTY");
    reveal_strlit("STQPURCVCHRATE");
    reveal_strlit("STQPURCVCHAMOUNT");
    let t = purchase_tag_views();
    assert(t[0].len() == 11 && t[1].len() == 12 && t[2].len() == 13 && t[3].len() == 14
        && t[4].len() == 16);
    assert forall|a: int, b: int| 0 <= a < b < t.len() implies t[a] != t[b] by {
        assert(t[a].len() != t[b].len());
    }
}

proof fn lemma_sale_tags_distinct()
    ensures
        distinct_tags(sale_tag_views()),
{
    reveal_strlit("STQSALESDATE");
    reveal_strlit("STQSALESVCHNO");
    reveal_strlit("STQSALESVCHQTY");
    reveal_strlit("STQSALESVCHRATE");
    reveal_strlit("STQSALESVCHAMOUNT");
    let t = sale_tag_views();
    assert(t[0].len() == 12 && t[1].len() == 13 && t[2].len() == 14 && t[3].len() == 15
        && t[4].len() == 17);
    assert forall|a: int, b: int| 0 <= a < b < t.len() implies t[a] != t[b] by {
        assert(t[a].len() != t[b].len());
    }
}

proof fn lemma_batch_tags_distinct()
    ensures
        distinct_tags(batch_tag_views()),
{
    reveal_strlit("STQGODOWNNAME");
    reveal_strlit("STQBATCHNAME");
    reveal_strlit("STQGODOWNQTY");
    let t = batch_tag_views();
    assert(t[0].len() == 13 && t[1].len() == 12 && t[2].len() == 12);
    assert forall|a: int, b: int| 0 <= a < b < t.len() implies t[a] != t[b] by {
        if a == 1 && b == 2 {
            assert(t[1][3] != t[2][3]);
        } else {
            assert(t[a].len() != t[b].len());
        }
    }
}

fn purchases_of_rows(rows: &Vec<Vec<String>>) -> (out: Vec<Purchase>)
    requires
        forall|j: int| 0 <= j < rows@.len() ==> (#[trigger] rows@[j])@.len() == 5,
    ensures
        purchase_rows(out@) == rows_view(rows@),
{
    let mut out: Vec<Purchase> = Vec::new();
    let mut j: usize = 0;
    while j < rows.len()
        invariant
            j <= rows@.len(),
            forall|jj: int| 0 <= jj < rows@.len() ==> (#[trigger] rows@[jj])@.len() == 5,
            out@.len() == j,
            forall|jj: int| 0 <= jj < j ==> purchase_rows(out@)[jj] == rows_view(rows@)[jj],
        decreases rows@.len() - j,
    {
        let r = &rows[j];
        let p = Purchase {
            date: r[0].clone(),
            party: r[1].clone(),
            qty: r[2].clone(),
            rate: r[3].clone(),
            amount: r[4].clone(),
        };
        proof {
            assert(purchase_row(p) =~= strs_view(r@));
        }
        let ghost out0 = out@;
        out.push(p);
        proof {
            assert(forall|jj: int|
                0 <= jj < out0.len() ==> purchase_rows(out@)[jj] == purchase_rows(out0)[jj]);
        }
        j += 1;
    }
    proof {
        assert(purchase_rows(out@) =~= rows_view(rows@));
    }
    out
}

fn sales_of_rows(rows: &Vec<Vec<String>>) -> (out: Vec<Sale>)
    requires
        forall|j: int| 0 <= j < rows@.len() ==> (#[trigger] rows@[j])@.len() == 5,
    ensures
        sale_rows(out@) == rows_view(rows@),
{
    let mut out: Vec<Sale> = Vec::new();
    let mut j: usize = 0;
    while j < rows.len()
        invariant
            j <= rows@.len(),
            forall|jj: int| 0 <= jj < rows@.len() ==> (#[trigger] rows@[jj])@.len() == 5,
            out@.len() == j,
            forall|jj: int| 0 <= jj < j ==> sale_rows(out@)[jj] == rows_view(rows@)[jj],
        decreases rows@.len() - j,
    {
        let r = &rows[j];
        let s = Sale {
            date: r[0].clone(),
            party: r[1].clone(),
            qty: r[2].clone(),
            rate: r[3].clone(),
            amount: r[4].clone(),
        };
        proof {
            assert(sale_row(s) =~= strs_view(r@));
        }
        let ghost out0 = out@;
        out.push(s);
        proof {
            assert(forall|jj: int|
                0 <= jj < out0.len() ==> sale_rows(out@)[jj] == sale_rows(out0)[jj]);
        }
        j += 1;
    }
    proof {
        assert(sale_rows(out@) =~= rows_view(rows@));
    }
    out
}

fn batches_of_rows(rows: &Vec<Vec<String>>) -> (out: Vec<Batch>)
    requires
        forall|j: int| 0 <= j < rows@.len() ==> (#[trigger] rows@[j])@.len() == 3,
    ensures
        batch_rows(out@) == rows_view(rows@),
{
    let mut out: Vec<Batch> = Vec::new();
    let mut j: usize = 0;
    while j < rows.len()
        invariant
            j <= rows@.len(),
            forall|jj: int| 0 <= jj < rows@.len() ==> (#[trigger] rows@[jj])@.len() == 3,
            out@.len() == j,
            forall|jj: int| 0 <= jj < j ==> batch_rows(out@)[jj] == rows_view(rows@)[jj],
        decreases rows@.len() - j,
    {
        let r = &rows[j];
        let b = Batch { godown: r[0].clone(), batch_name: r[1].clone(), qty: r[2].clone() };
        proof {
            assert(batch_row(b) =~= strs_view(r@));
        }
        let ghost out0 = out@;
        out.push(b);
        proof {
            assert(forall|jj: int|
                0 <= jj < out0.len() ==> batch_rows(out@)[jj] == batch_rows(out0)[jj]);
        }
        j += 1;
    }
    proof {
        assert(batch_rows(out@) =~= rows_view(rows@));
    }
    out
}

impl StockQuery {
    /// Sentinel-grouping reconstruction of the stock-item report from its
    /// flat element stream.
    pub fn from_elements(els: &Vec<Element>) -> (out: StockItem)
        ensures
            purchase_rows(out.purchases@) == sentinel_group_spec(
                purchase_tag_views(),
                elems_view(els@),
            ),
            sale_rows(out.sales@) == sentinel_group_spec(sale_tag_views(), elems_view(els@)),
            batch_rows(out.batches@) == sentinel_group_spec(batch_tag_views(), elems_view(els@)),
    {
        proof {
            lemma_purchase_tags_distinct();
            lemma_sale_tags_distinct();
            lemma_batch_tags_distinct();
        }
        let ptags = purchase_tags();
        let prows = sentinel_group(&ptags, els);
        proof {
            assert forall|j: int| 0 <= j < prows@.len() implies (#[trigger] prows@[j])@.len()
                == 5 by {
                assert(purchase_tag_views().len() == 5);
                assert(rows_view(prows@).len() == sentinel_group_spec(
                    purchase_tag_views(),
                    elems_view(els@),
                ).len());
                assert(rows_view(prows@)[j] == sentinel_group_spec(
                    purchase_tag_views(),
                    elems_view(els@),
                )[j]);
                assert(sentinel_group_spec(
                    purchase_tag_views(),
                    elems_view(els@),
                )[j].len() == 5);
                assert(rows_view(prows@)[j] == strs_view(prows@[j]@));
                assert(strs_view(prows@[j]@).len() == prows@[j]@.len());
            }
        }
        let purchases = purchases_of_rows(&prows);
        let stags = sale_tags();
        let srows = sentinel_group(&stags, els);
        proof {
            assert forall|j: int| 0 <= j < srows@.len() implies (#[trigger] srows@[j])@.len()
                == 5 by {
                assert(sale_tag_views().len() == 5);
                assert(rows_view(srows@).len() == sentinel_group_spec(
                    sale_tag_views(),
                    elems_view(els@),
                ).len());
                assert(rows_view(srows@)[j] == sentinel_group_spec(
                    sale_tag_views(),
                    elems_view(els@),
                )[j]);
                assert(sentinel_group_spec(
                    sale_tag_views(),
                    elems_view(els@),
                )[j].len() == 5);
                assert(rows_view(srows@)[j] == strs_view(srows@[j]@));
                assert(strs_view(srows@[j]@).len() == srows@[j]@.len());
            }
        }
        let sales = sales_of_rows(&srows);
        let btags = batch_tags();
        let brows = sentinel_group(&btags, els);
        proof {
            assert forall|j: int| 0 <= j < brows@.len() implies (#[trigger] brows@[j])@.len()
                == 3 by {
                assert(batch_tag_views().len() == 3);
                assert(rows_view(brows@).len() == sentinel_group_spec(
                    batch_tag_views(),
                    elems_view(els@),
                ).len());
                assert(rows_view(brows@)[j] == sentinel_group_spec(
                    batch_tag_views(),
                    elems_view(els@),
                )[j]);
                assert(sentinel_group_spec(
                    batch_tag_views(),
                    elems_view(els@),
                )[j].len() == 3);
                assert(rows_view(brows@)[j] == strs_view(brows@[j]@));
                assert(strs_view(brows@[j]@).len() == brows@[j]@.len());
            }
        }
        let batches = batches_of_rows(&brows);
        StockItem { purchases, sales, batches }
    }

    /// Parallel-column reconstruction of the same report: the legacy
    /// positional strategy, selectable explicitly by the caller.
    pub fn from_elements_positional(els: &Vec<Element>) -> (out: StockItem)
        ensures
            purchase_rows(out.purchases@) == parallel_group_spec(
                purchase_tag_views(),
                elems_view(els@),
            ),
            sale_rows(out.sales@) == parallel_group_spec(sale_tag_views(), elems_view(els@)),
            batch_rows(out.batches@) == parallel_group_spec(batch_tag_views(), elems_view(els@)),
    {
        let ptags = purchase_tags();
        let prows = parallel_group(&ptags, els);
        proof {
            assert forall|j: int| 0 <= j < prows@.len() implies (#[trigger] prows@[j])@.len()
                == 5 by {
                assert(purchase_tag_views().len() == 5);
                assert(rows_view(prows@).len() == parallel_group_spec(
                    purchase_tag_views(),
                    elems_view(els@),
                ).len());
                assert(rows_view(prows@)[j] == parallel_group_spec(
                    purchase_tag_views(),
                    elems_view(els@),
                )[j]);
                assert(parallel_group_spec(
                    purchase_tag_views(),
                    elems_view(els@),
                )[j].len() == 5);
                assert(rows_view(prows@)[j] == strs_view(prows@[j]@));
                assert(strs_view(prows@[j]@).len() == prows@[j]@.len());
            }
        }
        let purchases = purchases_of_rows(&prows);
        let stags = sale_tags();
        let srows = parallel_group(&stags, els);
        proof {
            assert forall|j: int| 0 <= j < srows@.len() implies (#[trigger] srows@[j])@.len()
                == 5 by {
                assert(sale_tag_views().len() == 5);
                assert(rows_view(srows@).len() == parallel_group_spec(
                    sale_tag_views(),
                    elems_view(els@),
                ).len());
                assert(rows_view(srows@)[j] == parallel_group_spec(
                    sale_tag_views(),
                    elems_view(els@),
                )[j]);
                assert(parallel_group_spec(
                    sale_tag_views(),
                    elems_view(els@),
                )[j].len() == 5);
                assert(rows_view(srows@)[j] == strs_view(srows@[j]@));
                assert(strs_view(srows@[j]@).len() == srows@[j]@.len());
            }
        }
        let sales = sales_of_rows(&srows);
        let btags = batch_tags();
        let brows = parallel_group(&btags, els);
        proof {
            assert forall|j: int| 0 <= j < brows@.len() implies (#[trigger] brows@[j])@.len()
                == 3 by {
                assert(batch_tag_views().len() == 3);
                assert(rows_view(brows@).len() == parallel_group_spec(
                    batch_tag_views(),
                    elems_view(els@),
                ).len());
                assert(rows_view(brows@)[j] == parallel_group_spec(
                    batch_tag_views(),
                    elems_view(els@),
                )[j]);
                assert(parallel_group_spec(
                    batch_tag_views(),
                    elems_view(els@),
                )[j].len() == 3);
                assert(rows_view(brows@)[j] == strs_view(brows@[j]@));
                assert(strs_view(brows@[j]@).len() == brows@[j]@.len());
            }
        }
        let batches = batches_of_rows(&brows);
        StockItem { purchases, sales, batches }
    }

    /// The legacy positional strategy over a whole document: parse the XML,
    /// then reconstruct every record kind by parallel columns.
    pub fn parse_positional(&self, xml: &str) -> (r: Result<StockItem, ParserError>)
        ensures
            r is Ok <==> xml_well_formed(xml@),
            r matches Err(e) ==> e is XmlParse,
            r matches Ok(out) ==> {
                &&& purchase_rows(out.purchases@) == parallel_group_spec(
                    purchase_tag_views(),
                    elements_of(xml@),
                )
                &&& sale_rows(out.sales@) == parallel_group_spec(
                    sale_tag_views(),
                    elements_of(xml@),
                )
                &&& batch_rows(out.batches@) == parallel_group_spec(
                    batch_tag_views(),
                    elements_of(xml@),
                )
            },
    {
        match parse_flat_elements(xml) {
            Ok(els) => Ok(StockQuery::from_elements_positional(&els)),
            Err(e) => Err(ParserError::XmlParse(e)),
        }
    }
}

impl Parser for StockQuery {
    type Output = StockItem;

    open spec fn good_output(&self, els: Seq<(Seq<char>, Seq<char>)>, out: StockItem) -> bool {
        &&& purchase_rows(out.purchases@) == sentinel_group_spec(purchase_tag_views(), els)
        &&& sale_rows(out.sales@) == sentinel_group_spec(sale_tag_views(), els)
        &&& batch_rows(out.batches@) == sentinel_group_spec(batch_tag_views(), els)
    }

    open spec fn spec_request(&self) -> Seq<char> {
        "<ENVELOPE>
    <HEADER>
        <VERSION>1</VERSION>
        <TALLYREQUEST>Export</TALLYREQUEST>
        <TYPE>Data</TYPE>
        <ID>Stock Query</ID>
    </HEADER>
    <BODY>
        <DESC>
            <STATICVARIABLES>
                <SVEXPORTFORMAT>$$SysName:XML</SVEXPORTFORMAT>
                <STOCKITEMNAME>{}</STOCKITEMNAME>
            </STATICVARIABLES>
        </DESC>
    </BODY>
</ENVELOPE>"@
    }

    fn request_xml(&self) -> (r: String) {
        "<ENVELOPE>
    <HEADER>
        <VERSION>1</VERSION>
        <TALLYREQUEST>Export</TALLYREQUEST>
        <TYPE>Data</TYPE>
        <ID>Stock Query</ID>
    </HEADER>
    <BODY>
        <DESC>
            <STATICVARIABLES>
                <SVEXPORTFORMAT>$$SysName:XML</SVEXPORTFORMAT>
                <STOCKITEMNAME>{}</STOCKITEMNAME>
            </STATICVARIABLES>
        </DESC>
    </BODY>
</ENVELOPE>".to_owned()
    }

    fn parse(&self, xml: &str) -> (r: Result<StockItem, ParserError>) {
        match parse_flat_elements(xml) {
            Ok(els) => Ok(StockQuery::from_elements(&els)),
            Err(e) => Err(ParserError::XmlParse(e)),
        }
    }
}

} // verus!
