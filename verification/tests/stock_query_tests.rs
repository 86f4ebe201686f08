use stock_records::stock_query::StockQuery;
use stock_records::types::{Parser, ParserError};

#[test]
fn one_purchase_with_missing_fields() {
    // One purchase sentinel, a party, and none of the qty/rate/amount tags.
    let xml = "<ENVELOPE>\
        <STQPURCDATE>1-Apr-23</STQPURCDATE>\
        <STQPURCPARTY>Acme</STQPURCPARTY>\
        </ENVELOPE>";
    let item = StockQuery.parse(xml).unwrap();
    assert_eq!(item.purchases.len(), 1);
    assert_eq!(item.purchases[0].date, "1-Apr-23");
    assert_eq!(item.purchases[0].party, "Acme");
    assert_eq!(item.purchases[0].qty, "");
    assert_eq!(item.purchases[0].rate, "");
    assert_eq!(item.purchases[0].amount, "");
    assert_eq!(item.sales.len(), 0);
    assert_eq!(item.batches.len(), 0);
}

#[test]
fn sentinels_in_document_order() {
    let xml = "<ENVELOPE>\
        <STQPURCDATE>1-Apr-23</STQPURCDATE>\
        <STQPURCDATE>2-Apr-23</STQPURCDATE>\
        <STQPURCDATE>3-Apr-23</STQPURCDATE>\
        </ENVELOPE>";
    let item = StockQuery.parse(xml).unwrap();
    assert_eq!(item.purchases.len(), 3);
    assert_eq!(item.purchases[0].date, "1-Apr-23");
    assert_eq!(item.purchases[1].date, "2-Apr-23");
    assert_eq!(item.purchases[2].date, "3-Apr-23");
}

#[test]
fn field_between_sentinels_goes_to_open_record() {
    let xml = "<ENVELOPE>\
        <STQPURCDATE>1-Apr-23</STQPURCDATE>\
        <STQPURCPARTY>First</STQPURCPARTY>\
        <STQPURCDATE>2-Apr-23</STQPURCDATE>\
        <STQPURCPARTY>Second</STQPURCPARTY>\
        </ENVELOPE>";
    let item = StockQuery.parse(xml).unwrap();
    assert_eq!(item.purchases.len(), 2);
    assert_eq!(item.purchases[0].party, "First");
    assert_eq!(item.purchases[1].party, "Second");
}

#[test]
fn duplicate_field_last_write_wins() {
    let xml = "<ENVELOPE>\
        <STQPURCDATE>1-Apr-23</STQPURCDATE>\
        <STQPURCPARTY>Old</STQPURCPARTY>\
        <STQPURCPARTY>New</STQPURCPARTY>\
        </ENVELOPE>";
    let item = StockQuery.parse(xml).unwrap();
    assert_eq!(item.purchases.len(), 1);
    assert_eq!(item.purchases[0].party, "New");
}

#[test]
fn trailing_record_is_kept() {
    let xml = "<ENVELOPE>\
        <STQPURCDATE>1-Apr-23</STQPURCDATE>\
        <STQPURCVCHQTY>5 Nos</STQPURCVCHQTY>\
        <STQPURCVCHAMOUNT>100.00</STQPURCVCHAMOUNT>\
        </ENVELOPE>";
    let item = StockQuery.parse(xml).unwrap();
    assert_eq!(item.purchases.len(), 1);
    assert_eq!(item.purchases[0].qty, "5 Nos");
    assert_eq!(item.purchases[0].amount, "100.00");
}

#[test]
fn field_before_any_sentinel_is_discarded() {
    let xml = "<ENVELOPE>\
        <STQPURCPARTY>Orphan</STQPURCPARTY>\
        <STQPURCDATE>1-Apr-23</STQPURCDATE>\
        </ENVELOPE>";
    let item = StockQuery.parse(xml).unwrap();
    assert_eq!(item.purchases.len(), 1);
    assert_eq!(item.purchases[0].party, "");
}

#[test]
fn unrecognized_tags_are_ignored() {
    let xml = "<ENVELOPE><HEADER><STATUS>1</STATUS></HEADER>\
        <STQPURCDATE>1-Apr-23</STQPURCDATE>\
        <SOMETHINGELSE>junk</SOMETHINGELSE>\
        </ENVELOPE>";
    let item = StockQuery.parse(xml).unwrap();
    assert_eq!(item.purchases.len(), 1);
    assert_eq!(item.purchases[0].date, "1-Apr-23");
}

#[test]
fn all_three_record_kinds_in_one_pass() {
    let xml = "<ENVELOPE>\
        <STQPURCDATE>1-Apr-23</STQPURCDATE>\
        <STQPURCPARTY>Acme</STQPURCPARTY>\
        <STQPURCVCHQTY>2 Nos</STQPURCVCHQTY>\
        <STQPURCVCHRATE>50.00/Nos</STQPURCVCHRATE>\
        <STQPURCVCHAMOUNT>100.00</STQPURCVCHAMOUNT>\
        <STQSALESDATE>5-Apr-23</STQSALESDATE>\
        <STQSALESVCHNO>INV-1</STQSALESVCHNO>\
        <STQSALESVCHQTY>1 Nos</STQSALESVCHQTY>\
        <STQSALESVCHRATE>70.00/Nos</STQSALESVCHRATE>\
        <STQSALESVCHAMOUNT>70.00</STQSALESVCHAMOUNT>\
        <STQGODOWNNAME>Main</STQGODOWNNAME>\
        <STQBATCHNAME>B-1</STQBATCHNAME>\
        <STQGODOWNQTY>1 Nos</STQGODOWNQTY>\
        </ENVELOPE>";
    let item = StockQuery.parse(xml).unwrap();
    assert_eq!(item.purchases.len(), 1);
    assert_eq!(item.purchases[0].rate, "50.00/Nos");
    assert_eq!(item.sales.len(), 1);
    assert_eq!(item.sales[0].party, "INV-1");
    assert_eq!(item.sales[0].amount, "70.00");
    assert_eq!(item.batches.len(), 1);
    assert_eq!(item.batches[0].godown, "Main");
    assert_eq!(item.batches[0].batch_name, "B-1");
    assert_eq!(item.batches[0].qty, "1 Nos");
}

#[test]
fn nested_elements_are_traversed_in_document_order() {
    // Fields may appear at varying nesting depth; only document order counts.
    let xml = "<ENVELOPE><BODY><DATA>\
        <STQPURCDATE>1-Apr-23</STQPURCDATE>\
        <ROW><STQPURCPARTY>Deep</STQPURCPARTY></ROW>\
        </DATA></BODY></ENVELOPE>";
    let item = StockQuery.parse(xml).unwrap();
    assert_eq!(item.purchases.len(), 1);
    assert_eq!(item.purchases[0].party, "Deep");
}

#[test]
fn malformed_xml_is_an_error() {
    let r = StockQuery.parse("<ENVELOPE><STQPURCDATE>oops");
    match r {
        Err(ParserError::XmlParse(_)) => {}
        _ => panic!("expected an XML parse error"),
    }
}

#[test]
fn positional_zip_clips_to_reference_column() {
    // Two purchase dates but only one party: the second record's party is
    // empty under the positional strategy.
    let xml = "<ENVELOPE>\
        <STQPURCDATE>1-Apr-23</STQPURCDATE>\
        <STQPURCPARTY>Acme</STQPURCPARTY>\
        <STQPURCDATE>2-Apr-23</STQPURCDATE>\
        </ENVELOPE>";
    let item = StockQuery.parse_positional(xml).unwrap();
    assert_eq!(item.purchases.len(), 2);
    assert_eq!(item.purchases[0].date, "1-Apr-23");
    assert_eq!(item.purchases[0].party, "Acme");
    assert_eq!(item.purchases[1].date, "2-Apr-23");
    assert_eq!(item.purchases[1].party, "");
}

#[test]
fn positional_groups_by_index_not_by_span() {
    // The positional strategy pairs values by occurrence index, even where
    // the sentinel strategy would attribute them differently.
    let xml = "<ENVELOPE>\
        <STQPURCDATE>1-Apr-23</STQPURCDATE>\
        <STQPURCDATE>2-Apr-23</STQPURCDATE>\
        <STQPURCPARTY>OnlyOne</STQPURCPARTY>\
        </ENVELOPE>";
    let item = StockQuery.parse_positional(xml).unwrap();
    assert_eq!(item.purchases.len(), 2);
    assert_eq!(item.purchases[0].party, "OnlyOne");
    assert_eq!(item.purchases[1].party, "");
    // The sentinel strategy attributes the party to the second record.
    let item2 = StockQuery.parse(xml).unwrap();
    assert_eq!(item2.purchases[0].party, "");
    assert_eq!(item2.purchases[1].party, "OnlyOne");
}

#[test]
fn stock_request_template_is_fixed() {
    let r = StockQuery.request_xml();
    assert!(r.contains("<ID>Stock Query</ID>"));
    assert!(r.contains("<STOCKITEMNAME>{}</STOCKITEMNAME>"));
}
