use rtorrent_xmlrpc_bindings::decode::decode_rows;
use rtorrent_xmlrpc_bindings::download;
use rtorrent_xmlrpc_bindings::{
    ColumnDescriptor, Decimal, DecodeError, InvokeError, MultiBuilder, Request, Server,
    TransportError, TypeTag, Value, WireValue,
};
use std::cell::Cell;

fn text(s: &str) -> WireValue {
    WireValue::Text(s.to_string())
}

fn three_columns() -> MultiBuilder {
    let server = Server::new("http://1.2.3.4/RPC2");
    MultiBuilder::new(&server, "default")
        .call(download::name())
        .call(download::ratio())
        .call(download::size_bytes())
}

fn answer(
    rows: Vec<Vec<WireValue>>,
) -> impl FnOnce(Request) -> Result<Vec<Vec<WireValue>>, TransportError> {
    move |_q: Request| Ok(rows)
}

fn decimal_as_f64(d: Decimal) -> f64 {
    d.mantissa as f64 / 10f64.powi(d.scale as i32)
}

#[test]
fn three_columns_two_rows() {
    let rows = vec![
        vec![text("Alpha"), text("1.5"), text("2048")],
        vec![text("Beta"), text("0.0"), text("0")],
    ];
    let r = three_columns().invoke(answer(rows)).unwrap();
    assert_eq!(r.len(), 2);
    assert_eq!(
        r[0],
        vec![
            Value::Text("Alpha".to_string()),
            Value::Float(Decimal { mantissa: 15, scale: 1 }),
            Value::Int(2048)
        ]
    );
    assert_eq!(
        r[1],
        vec![
            Value::Text("Beta".to_string()),
            Value::Float(Decimal { mantissa: 0, scale: 1 }),
            Value::Int(0)
        ]
    );
    match r[0][1] {
        Value::Float(d) => assert_eq!(decimal_as_f64(d), 1.5),
        _ => panic!("not a float"),
    }
    match r[1][1] {
        Value::Float(d) => assert_eq!(decimal_as_f64(d), 0.0),
        _ => panic!("not a float"),
    }
}

#[test]
fn unparseable_float_fails_whole_call() {
    let rows = vec![vec![text("Gamma"), text("not-a-number"), text("10")]];
    let r = three_columns().invoke(answer(rows));
    assert_eq!(
        r,
        Err(InvokeError::Decode(DecodeError::Coercion {
            row: 0,
            column: 1,
            name: "d.ratio".to_string()
        }))
    );
}

#[test]
fn failure_discards_earlier_rows() {
    let rows = vec![
        vec![text("Alpha"), text("1.5"), text("2048")],
        vec![text("Gamma"), text("not-a-number"), text("10")],
    ];
    let r = three_columns().invoke(answer(rows));
    assert_eq!(
        r,
        Err(InvokeError::Decode(DecodeError::Coercion {
            row: 1,
            column: 1,
            name: "d.ratio".to_string()
        }))
    );
}

#[test]
fn first_bad_value_is_reported() {
    let rows = vec![vec![text("Gamma"), text("x"), text("y")]];
    let r = three_columns().invoke(answer(rows));
    assert_eq!(
        r,
        Err(InvokeError::Decode(DecodeError::Coercion {
            row: 0,
            column: 1,
            name: "d.ratio".to_string()
        }))
    );
}

#[test]
fn short_row_is_shape_error() {
    let rows = vec![
        vec![text("Alpha"), text("1.5"), text("2048")],
        vec![text("Beta"), text("0.0")],
    ];
    let r = three_columns().invoke(answer(rows));
    assert_eq!(
        r,
        Err(InvokeError::Decode(DecodeError::Shape { row: 1, expected: 3, found: 2 }))
    );
}

#[test]
fn long_row_is_shape_error() {
    let rows = vec![vec![text("A"), text("1"), text("2"), text("3")]];
    let r = three_columns().invoke(answer(rows));
    assert_eq!(
        r,
        Err(InvokeError::Decode(DecodeError::Shape { row: 0, expected: 3, found: 4 }))
    );
}

#[test]
fn transport_error_is_passed_on() {
    let err = TransportError { message: "connection refused".to_string() };
    let sent = err.clone();
    let r = three_columns().invoke(move |_q: Request| Err(sent));
    assert_eq!(r, Err(InvokeError::Transport(err)));
}

#[test]
fn no_columns_is_usage_error() {
    let server = Server::new("http://h/RPC2");
    let calls = Cell::new(0u32);
    let r = MultiBuilder::new(&server, "default").invoke(|_q: Request| {
        calls.set(calls.get() + 1);
        Ok(vec![])
    });
    assert_eq!(r, Err(InvokeError::NoColumns));
    assert_eq!(calls.get(), 0);
}

#[test]
fn one_request_carries_every_column() {
    let calls = Cell::new(0u32);
    let seen: Cell<Option<Request>> = Cell::new(None);
    let r = three_columns().invoke(|q: Request| {
        calls.set(calls.get() + 1);
        seen.set(Some(q));
        Ok(vec![])
    });
    assert_eq!(r, Ok(vec![]));
    assert_eq!(calls.get(), 1);
    let q = seen.take().unwrap();
    assert_eq!(q.endpoint, "http://1.2.3.4/RPC2");
    assert_eq!(q.method, "d.multicall2");
    assert_eq!(q.target, "");
    assert_eq!(q.view, "default");
    assert_eq!(q.operations, vec!["d.name", "d.ratio", "d.size_bytes"]);
}

#[test]
fn builder_keeps_column_order() {
    let server = Server::new("http://h/RPC2");
    let b = MultiBuilder::new(&server, "main")
        .call(download::hash())
        .call(download::is_active())
        .call(download::message());
    assert_eq!(b.columns.len(), 3);
    assert_eq!(b.columns[0], ColumnDescriptor::new("d.hash", TypeTag::Text));
    assert_eq!(b.columns[1], ColumnDescriptor::new("d.is_active", TypeTag::Bool));
    assert_eq!(b.columns[2], ColumnDescriptor::new("d.message", TypeTag::Text));
    assert_eq!(b.request().operations, vec!["d.hash", "d.is_active", "d.message"]);
}

#[test]
fn rows_keep_response_order() {
    let cols = vec![download::size_bytes()];
    let rows = vec![
        vec![WireValue::Int(3)],
        vec![WireValue::Int(1)],
        vec![WireValue::Int(2)],
    ];
    let r = decode_rows(&cols, &rows).unwrap();
    assert_eq!(
        r,
        vec![vec![Value::Int(3)], vec![Value::Int(1)], vec![Value::Int(2)]]
    );
}

#[test]
fn decoded_rows_have_one_value_per_column() {
    let cols = vec![download::name(), download::is_active(), download::size_bytes(), download::ratio()];
    let rows = vec![
        vec![text("a"), WireValue::Bool(true), WireValue::Int(-5), WireValue::Float("2.25".to_string())],
        vec![text("b"), WireValue::Int(0), text("-9223372036854775808"), text("7")],
    ];
    let r = decode_rows(&cols, &rows).unwrap();
    for row in &r {
        assert_eq!(row.len(), cols.len());
    }
    assert_eq!(
        r[0],
        vec![
            Value::Text("a".to_string()),
            Value::Bool(true),
            Value::Int(-5),
            Value::Float(Decimal { mantissa: 225, scale: 2 })
        ]
    );
    assert_eq!(
        r[1],
        vec![
            Value::Text("b".to_string()),
            Value::Bool(false),
            Value::Int(i64::MIN),
            Value::Float(Decimal { mantissa: 7, scale: 0 })
        ]
    );
}

#[test]
fn empty_response_decodes_to_no_rows() {
    let cols = vec![download::name()];
    let rows: Vec<Vec<WireValue>> = vec![];
    assert_eq!(decode_rows(&cols, &rows), Ok(vec![]));
}

#[test]
fn text_column_rejects_integer() {
    let cols = vec![download::message()];
    let rows = vec![vec![WireValue::Int(1)]];
    assert_eq!(
        decode_rows(&cols, &rows),
        Err(DecodeError::Coercion { row: 0, column: 0, name: "d.message".to_string() })
    );
}

#[test]
fn float_column_rejects_integer_and_bool() {
    let cols = vec![download::ratio()];
    for w in [WireValue::Int(1), WireValue::Bool(true), WireValue::Float("NaN".to_string())] {
        assert_eq!(
            decode_rows(&cols, &vec![vec![w]]),
            Err(DecodeError::Coercion { row: 0, column: 0, name: "d.ratio".to_string() })
        );
    }
}

#[test]
fn bool_column_accepts_zero_and_one_only() {
    let cols = vec![download::is_active()];
    let ok = [
        (WireValue::Int(1), true),
        (WireValue::Int(0), false),
        (text("1"), true),
        (text("0"), false),
        (WireValue::Bool(false), false),
    ];
    for (w, b) in ok {
        assert_eq!(decode_rows(&cols, &vec![vec![w]]), Ok(vec![vec![Value::Bool(b)]]));
    }
    for w in [WireValue::Int(2), WireValue::Int(-1), text("true"), text("01"), WireValue::Float("1".to_string())] {
        assert!(matches!(
            decode_rows(&cols, &vec![vec![w]]),
            Err(DecodeError::Coercion { row: 0, column: 0, .. })
        ));
    }
}

#[test]
fn int_column_parses_text_exactly() {
    let cols = vec![download::size_bytes()];
    let good = [("2048", 2048i64), ("-17", -17), ("007", 7), ("-0", 0), ("9223372036854775807", i64::MAX)];
    for (s, v) in good {
        assert_eq!(decode_rows(&cols, &vec![vec![text(s)]]), Ok(vec![vec![Value::Int(v)]]));
    }
    let bad = ["", "-", "+1", " 1", "1 ", "1.0", "9223372036854775808", "-9223372036854775809", "12a"];
    for s in bad {
        assert!(decode_rows(&cols, &vec![vec![text(s)]]).is_err(), "{}", s);
    }
}
