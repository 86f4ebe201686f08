use stock_records::stock_vouchers::StockVouchersQuery;
use stock_records::types::Parser;

fn query() -> StockVouchersQuery {
    StockVouchersQuery {
        stock_item_name: "Widget".to_string(),
        from_date: "1-Apr-23".to_string(),
        to_date: "30-Apr-23".to_string(),
    }
}

#[test]
fn purc_survives_sales_does_not() {
    let xml = "<ENVELOPE>\
        <DSPVCHDATE>1-Apr-23</DSPVCHDATE>\
        <DSPVCHTYPE>Purc</DSPVCHTYPE>\
        <DSPVCHDATE>2-Apr-23</DSPVCHDATE>\
        <DSPVCHTYPE>Sales</DSPVCHTYPE>\
        </ENVELOPE>";
    let out = query().parse(xml).unwrap();
    assert_eq!(out.vouchers.len(), 1);
    assert_eq!(out.vouchers[0].date, "1-Apr-23");
    assert_eq!(out.vouchers[0].voucher_type, "Purc");
}

#[test]
fn gst_substring_and_exact_purc_both_survive() {
    let xml = "<ENVELOPE>\
        <DSPVCHDATE>1-Apr-23</DSPVCHDATE>\
        <DSPVCHTYPE>GSTPUR</DSPVCHTYPE>\
        <DSPVCHDATE>2-Apr-23</DSPVCHDATE>\
        <DSPVCHTYPE>Purc</DSPVCHTYPE>\
        </ENVELOPE>";
    let out = query().parse(xml).unwrap();
    assert_eq!(out.vouchers.len(), 2);
    assert_eq!(out.vouchers[0].voucher_type, "GSTPUR");
    assert_eq!(out.vouchers[1].voucher_type, "Purc");
}

#[test]
fn filter_keeps_relative_order() {
    let xml = "<ENVELOPE>\
        <DSPVCHDATE>1-Apr-23</DSPVCHDATE><DSPVCHTYPE>Purc</DSPVCHTYPE>\
        <DSPVCHDATE>2-Apr-23</DSPVCHDATE><DSPVCHTYPE>Sales</DSPVCHTYPE>\
        <DSPVCHDATE>3-Apr-23</DSPVCHDATE><DSPVCHTYPE>MyGSTEntry</DSPVCHTYPE>\
        <DSPVCHDATE>4-Apr-23</DSPVCHDATE><DSPVCHTYPE>Receipt</DSPVCHTYPE>\
        <DSPVCHDATE>5-Apr-23</DSPVCHDATE><DSPVCHTYPE>Purc</DSPVCHTYPE>\
        </ENVELOPE>";
    let out = query().parse(xml).unwrap();
    assert_eq!(out.vouchers.len(), 3);
    assert_eq!(out.vouchers[0].date, "1-Apr-23");
    assert_eq!(out.vouchers[1].date, "3-Apr-23");
    assert_eq!(out.vouchers[2].date, "5-Apr-23");
    for v in &out.vouchers {
        assert!(v.voucher_type == "Purc" || v.voucher_type.contains("GST"));
    }
}

#[test]
fn filter_is_case_and_exactness_sensitive() {
    // "purc" is not exactly "Purc", "gst" is not "GST", and a type that
    // merely starts like "Purc" does not match either.
    let xml = "<ENVELOPE>\
        <DSPVCHDATE>1-Apr-23</DSPVCHDATE><DSPVCHTYPE>purc</DSPVCHTYPE>\
        <DSPVCHDATE>2-Apr-23</DSPVCHDATE><DSPVCHTYPE>gst</DSPVCHTYPE>\
        <DSPVCHDATE>3-Apr-23</DSPVCHDATE><DSPVCHTYPE>Purchase</DSPVCHTYPE>\
        </ENVELOPE>";
    let out = query().parse(xml).unwrap();
    assert_eq!(out.vouchers.len(), 0);
}

#[test]
fn voucher_fields_are_filled_and_defaulted() {
    let xml = "<ENVELOPE>\
        <DSPVCHDATE>1-Apr-23</DSPVCHDATE>\
        <DSPVCHTYPE>Purc</DSPVCHTYPE>\
        <DSPVCHINQTY>3 Nos</DSPVCHINQTY>\
        <DSPVCHINRATE>10.00/Nos</DSPVCHINRATE>\
        <DSPVCHINAMT>30.00</DSPVCHINAMT>\
        <DSPVCHCLQTY>3 Nos</DSPVCHCLQTY>\
        <DSPVCHCLAMT>30.00</DSPVCHCLAMT>\
        </ENVELOPE>";
    let out = query().parse(xml).unwrap();
    assert_eq!(out.vouchers.len(), 1);
    let v = &out.vouchers[0];
    assert_eq!(v.qty_in, "3 Nos");
    assert_eq!(v.rate_in, "10.00/Nos");
    assert_eq!(v.amount_in, "30.00");
    assert_eq!(v.qty_out, "");
    assert_eq!(v.rate_out, "");
    assert_eq!(v.amount_out, "");
    assert_eq!(v.closing_qty, "3 Nos");
    assert_eq!(v.closing_rate, "");
    assert_eq!(v.closing_amount, "30.00");
}

#[test]
fn voucher_trailing_record_and_last_write() {
    let xml = "<ENVELOPE>\
        <DSPVCHDATE>1-Apr-23</DSPVCHDATE>\
        <DSPVCHTYPE>Sales</DSPVCHTYPE>\
        <DSPVCHTYPE>Purc</DSPVCHTYPE>\
        </ENVELOPE>";
    let out = query().parse(xml).unwrap();
    assert_eq!(out.vouchers.len(), 1);
    assert_eq!(out.vouchers[0].voucher_type, "Purc");
}

#[test]
fn voucher_malformed_xml_is_an_error() {
    assert!(query().parse("not xml at all").is_err());
}

#[test]
fn voucher_request_substitutes_all_three_parameters() {
    let r = query().request_xml();
    assert!(r.contains("<ID>Stock Vouchers</ID>"));
    assert!(r.contains("<STOCKITEMNAME>Widget</STOCKITEMNAME>"));
    assert!(r.contains("<SVFROMDATE>1-Apr-23</SVFROMDATE>"));
    assert!(r.contains("<SVTODATE>30-Apr-23</SVTODATE>"));
}
