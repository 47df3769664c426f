use descriptor::ansi::compute_string_size;
use descriptor::get_keys;
use descriptor::object_describe_to_string;
use descriptor::record::record_headers;
use descriptor::Datum;
use descriptor::Describe;
use descriptor::FieldShape;
use descriptor::Record;
use descriptor::RecordList;
use descriptor::RecordShape;
use descriptor::Shape;
use descriptor::StringMap;
use descriptor::Timestamp;

fn field(name: &str, label: &str, child: Shape) -> FieldShape {
    FieldShape {
        name: name.to_string(),
        label: label.to_string(),
        child,
        flatten: false,
        skip_header: false,
        skip_describe: false,
        embed_table: false,
        extra: false,
        rename: None,
    }
}

fn leaf_field(name: &str, label: &str) -> FieldShape {
    field(name, label, Shape::Leaf)
}

fn rec(fields: Vec<FieldShape>) -> Shape {
    Shape::Composite(RecordShape {
        fields,
        header_override: None,
    })
}

fn text(s: &str) -> Datum {
    Datum::Text(s.to_string())
}

fn comp(vals: Vec<Datum>) -> Datum {
    Datum::Composite(vals)
}

fn record(shape: Shape, data: Datum) -> Record {
    Record::new(shape, data).unwrap()
}

#[test]
fn nested_address_object() {
    // An address field rendered nested (not flattened) gets a bare title line
    // and a more-indented block of its own, aligned to its own labels.
    let address = rec(vec![leaf_field("street", "Street"), leaf_field("town", "Town")]);
    let user = rec(vec![
        leaf_field("name", "Name"),
        leaf_field("age", "Age"),
        field("address", "Address", address),
    ]);
    let data = comp(vec![
        text("Adrien"),
        text("32"),
        comp(vec![text("Main street"), text("NY")]),
    ]);
    let description = object_describe_to_string(&record(user, data));
    assert_eq!(
        r#"
Name:    Adrien
Age:     32
Address:
  Street: Main street
  Town:   NY
"#,
        description
    );
}

#[test]
fn overridden_default_headers() {
    // A fixed default-header list picks exactly those columns, in order; the
    // remaining field is absent unless requested explicitly.
    let car = || Shape::Composite(RecordShape {
        fields: vec![
            leaf_field("brand", "Brand"),
            leaf_field("seat", "Seat"),
            leaf_field("model", "Model"),
        ],
        header_override: Some(vec!["brand".to_string(), "seat".to_string()]),
    });
    let rows = || vec![
        comp(vec![text("Audi"), text("4"), text("A3")]),
        comp(vec![text("Mercedes"), text("2"), text("GLC")]),
    ];
    let table = RecordList::new(car(), rows()).unwrap().to_table_string();
    assert_eq!("BRAND    SEAT\nAudi     4\nMercedes 2\n", table);

    let explicit = RecordList::new(car(), rows())
        .unwrap()
        .to_table_string_with_headers(&vec!["model".to_string()]);
    assert_eq!("MODEL\nA3\nGLC\n", explicit);
}

#[test]
fn embedded_table_ignores_styling() {
    // An embedded table sits two spaces deeper than its parent's field block,
    // and styling bytes inside a cell change no column width: stripping the
    // styled render yields exactly the plain render.
    let rows_with = |first_cell: &str| {
        let inner = rec(vec![leaf_field("v", "V"), leaf_field("w", "W")]);
        let mut items = field("items", "Items", Shape::Listing(Box::new(inner)));
        items.embed_table = true;
        let shape = rec(vec![leaf_field("name", "Name"), items]);
        let data = comp(vec![
            text("n"),
            Datum::Listing(vec![
                comp(vec![text(first_cell), text("z")]),
                comp(vec![text("yyyy"), text("z")]),
            ]),
        ]);
        object_describe_to_string(&record(shape, data))
    };
    let plain = rows_with("xx");
    assert_eq!(
        "\nName:  n\nItems:\n  V      W\n  xx     z\n  yyyy   z\n",
        plain
    );
    let styled = rows_with("\u{1b}[1mxx\u{1b}[0m");
    assert_ne!(styled, plain);
    assert_eq!(strip_ansi_escapes::strip_str(styled), plain);
}

#[test]
fn tombstones_for_absent_values() {
    // An absent optional, an empty sequence and an empty map all render as
    // the tombstone marker.
    let shape = rec(vec![
        leaf_field("a", "A"),
        field("b", "B", Shape::Optional(Box::new(Shape::Leaf))),
        field("c", "C", Shape::Listing(Box::new(Shape::Leaf))),
        field("d", "D", Shape::Mapping(Box::new(Shape::Leaf))),
    ]);
    let data = comp(vec![
        text("x"),
        Datum::Optional(None),
        Datum::Listing(vec![]),
        Datum::Mapping(vec![]),
    ]);
    let description = object_describe_to_string(&record(shape, data));
    assert_eq!("\nA: x\nB: ~\nC: ~\nD: ~\n", description);
}

#[test]
fn empty_table_body() {
    // A table with no rows keeps its header row and emits the empty-body
    // marker in place of rows.
    let shape = rec(vec![leaf_field("brand", "Brand")]);
    let table = RecordList::new(shape, vec![]).unwrap().to_table_string();
    assert_eq!("BRANDEmpty list\n\n", table);
}

#[test]
fn headers_cover_fields_and_stay_stable() {
    // A composite with three declared fields offers at least three header
    // paths, and repeated derivations agree.
    let shape = || {
        let inner = rec(vec![leaf_field("x", "X"), leaf_field("y", "Y")]);
        rec(vec![
            leaf_field("a", "A"),
            field("b", "B", inner),
            leaf_field("c", "C"),
        ])
    };
    let data = || comp(vec![text("1"), comp(vec![text("2"), text("3")]), text("4")]);
    let first = record_headers(&record(shape(), data()));
    let again = record_headers(&record(shape(), data()));
    assert!(first.len() >= 3);
    assert_eq!(first, vec!["a", "b.x", "b.y", "c"]);
    assert_eq!(first, again);
}

#[test]
fn every_header_resolves() {
    // Resolving to_field for every advertised header path reaches a real
    // field, never the failure sentinel; an unknown path does.
    let inner = rec(vec![leaf_field("x", "X"), leaf_field("y", "Y")]);
    let shape = rec(vec![leaf_field("a", "A"), field("b", "B", inner)]);
    let data = comp(vec![text("1"), comp(vec![text("2"), text("3")])]);
    let r = record(shape, data);
    for h in record_headers(&r) {
        assert_ne!(r.to_field(&h), "field not found");
    }
    assert_eq!(r.to_field("missing"), "field not found");
    assert_eq!(r.to_field("b.x"), "2");
}

#[test]
fn optional_wrapping_is_transparent() {
    // The headers of an optional value are the wrapped shape's, whether or
    // not a value is present.
    let shape = |wrap: bool, present: bool| {
        let inner = rec(vec![leaf_field("x", "X"), leaf_field("y", "Y")]);
        if wrap {
            let data = if present {
                Datum::Optional(Some(Box::new(comp(vec![text("1"), text("2")]))))
            } else {
                Datum::Optional(None)
            };
            record(Shape::Optional(Box::new(inner)), data)
        } else {
            record(inner, comp(vec![text("1"), text("2")]))
        }
    };
    let bare = record_headers(&shape(false, true));
    assert_eq!(record_headers(&shape(true, true)), bare);
    assert_eq!(record_headers(&shape(true, false)), bare);
}

#[test]
fn column_width_is_exact() {
    // Each column is exactly as wide as its widest member: the header label
    // here, the cells there.
    let shape = rec(vec![leaf_field("aaaaaa", "Aaaaaa"), leaf_field("b", "B")]);
    let rows = vec![comp(vec![text("x"), text("yyyyyyyy")])];
    let table = RecordList::new(shape, rows).unwrap().to_table_string();
    // AAAAAA is the widest of its column (6), yyyyyyyy of its own (8).
    assert_eq!("AAAAAA B\nx      yyyyyyyy\n", table);
}

#[test]
fn scalar_fields() {
    assert_eq!((42u32).to_field(""), "42");
    assert_eq!((-5i64).to_field("anything"), "-5");
    assert_eq!(i64::MIN.to_field(""), "-9223372036854775808");
    assert_eq!((0usize).to_field(""), "0");
    assert_eq!(true.to_field(""), "true");
    assert_eq!(false.to_field(""), "false");
    assert_eq!("plain".to_string().to_field("ignored"), "plain");
    let joined: Vec<u32> = vec![1, 2, 3];
    assert_eq!(joined.to_field(""), "1,2,3");
    let absent: Option<u32> = None;
    assert_eq!(absent.to_field(""), "~");
    assert_eq!(Some(7u32).to_field(""), "7");
}

#[test]
fn timestamp_format() {
    let t = Timestamp {
        year: 2023,
        month: 7,
        day: 5,
        hour: 9,
        minute: 30,
        second: 2,
    };
    assert_eq!(t.to_field(""), "05-07-23 09:30:02");
    let description = object_describe_to_string(&t);
    assert_eq!("05-07-23 09:30:02\n", description);
}

#[test]
fn path_splitting() {
    assert_eq!(get_keys("address.street"), ("address", "street"));
    assert_eq!(get_keys("a.b.c"), ("a", "b.c"));
    assert_eq!(get_keys("plain"), ("plain", ""));
    assert_eq!(get_keys(""), ("", ""));
}

#[test]
fn visible_length_discards_escapes() {
    assert_eq!(compute_string_size("plain"), 5);
    assert_eq!(compute_string_size("\u{1b}[31mab\u{1b}[0m"), 2);
    assert_eq!(compute_string_size(""), 0);
}

#[test]
fn map_insert_replaces_and_sorts() {
    let mut map: StringMap<String> = StringMap::new();
    map.insert("b".to_string(), "1".to_string());
    map.insert("a".to_string(), "2".to_string());
    map.insert("b".to_string(), "3".to_string());
    assert_eq!(map.len(), 2);
    let mut out = String::new();
    descriptor::Describer::describe_object(&map, &mut out, descriptor::Context::default());
    assert_eq!("\na: 2\nb: 3\n", out);
}

#[test]
fn mismatched_registration_is_refused() {
    // Data that does not have the declared form is rejected at registration.
    let shape = rec(vec![leaf_field("only", "Only")]);
    let too_many = comp(vec![text("1"), text("2")]);
    assert!(Record::new(shape, too_many).is_none());

    let shape = rec(vec![leaf_field("only", "Only")]);
    let wrong_kind = comp(vec![Datum::Listing(vec![])]);
    assert!(Record::new(shape, wrong_kind).is_none());

    let unsorted = Datum::Mapping(vec![
        ("b".to_string(), text("1")),
        ("a".to_string(), text("2")),
    ]);
    assert!(Record::new(Shape::Mapping(Box::new(Shape::Leaf)), unsorted).is_none());

    let shape = rec(vec![leaf_field("only", "Only")]);
    let bad_row = comp(vec![text("1"), text("2")]);
    assert!(RecordList::new(shape, vec![bad_row]).is_none());
}

#[test]
fn renamed_header_label() {
    // A declared rename replaces the auto-derived upper-snake label.
    let mut named = leaf_field("state", "State");
    named.rename = Some("Status".to_string());
    let shape = rec(vec![named, leaf_field("value", "Value")]);
    let rows = vec![comp(vec![text("on"), text("1")])];
    let table = RecordList::new(shape, rows).unwrap().to_table_string();
    assert_eq!("Status VALUE\non     1\n", table);
}
