use descriptor::Datum;
use descriptor::FieldShape;
use descriptor::RecordList;
use descriptor::RecordShape;
use descriptor::Shape;

pub fn no_color_and_line_return(str: String) -> String {
    format!("\n{}", strip_ansi_escapes::strip_str(str))
}

fn field(name: &str, label: &str, child: Shape) -> FieldShape {
    FieldShape {
        name: name.to_string(),
        label: label.to_string(),
        child,
        flatten: false,
        skip_header: false,
        skip_describe: false,
        embed_table: false,
        extra: false,
        rename: None,
    }
}

fn leaf_field(name: &str, label: &str) -> FieldShape {
    field(name, label, Shape::Leaf)
}

fn rec(fields: Vec<FieldShape>) -> Shape {
    Shape::Composite(RecordShape {
        fields,
        header_override: None,
    })
}

fn text(s: &str) -> Datum {
    Datum::Text(s.to_string())
}

fn comp(vals: Vec<Datum>) -> Datum {
    Datum::Composite(vals)
}

fn table_of(shape: Shape, rows: Vec<Datum>) -> RecordList {
    RecordList::new(shape, rows).unwrap()
}

fn strings(items: &[&str]) -> Vec<String> {
    items.iter().map(|x| x.to_string()).collect()
}

#[test]
fn test_table_descriptor() {
    // InnerA { state, value }
    let inner_a = rec(vec![leaf_field("state", "State"), leaf_field("value", "Value")]);
    let rows = vec![
        comp(vec![text("f"), text("bar")]),
        comp(vec![text("foo"), text("b")]),
    ];
    let table = table_of(inner_a, rows).to_table_string();

    assert_eq!(
        r#"
STATE VALUE
f     bar
foo   b
"#,
        no_color_and_line_return(table)
    )
}

#[test]
fn test_table_skip() {
    // TableHide { table, long_column, small_one, #[skip_header] hidden_one }
    let shape = || {
        let mut hidden = leaf_field("hidden_one", "Hidden One");
        hidden.skip_header = true;
        rec(vec![
            leaf_field("table", "Table"),
            leaf_field("long_column", "Long Column"),
            leaf_field("small_one", "Small One"),
            hidden,
        ])
    };
    let rows = || {
        vec![
            comp(vec![text("table"), text("long"), text("s"), text("hidden")]),
            comp(vec![text("row2"), text("row"), text("s"), text("hidden")]),
        ]
    };

    let table = table_of(shape(), rows()).to_table_string();

    assert_eq!(
        r#"
TABLE LONG_COLUMN SMALL_ONE
table long        s
row2  row         s
"#,
        no_color_and_line_return(table)
    );

    let table = table_of(shape(), rows())
        .to_table_string_with_headers(&strings(&["hidden_one"]));

    assert_eq!(
        r#"
HIDDEN_ONE
hidden
hidden
"#,
        no_color_and_line_return(table)
    );
}

#[test]
fn test_table_headers() {
    // Table { table, long_column, small_one } with
    // default_headers = ["table", "long_column"]
    let shape = Shape::Composite(RecordShape {
        fields: vec![
            leaf_field("table", "Table"),
            leaf_field("long_column", "Long Column"),
            leaf_field("small_one", "Small One"),
        ],
        header_override: Some(strings(&["table", "long_column"])),
    });
    let rows = vec![
        comp(vec![text("table"), text("long"), text("s")]),
        comp(vec![text("row2"), text("row"), text("s")]),
    ];

    let table = table_of(shape, rows).to_table_string();
    assert_eq!(
        r#"
TABLE LONG_COLUMN
table long
row2  row
"#,
        no_color_and_line_return(table)
    );
}

#[test]
fn test_table_inner() {
    // Bar { inner_foo: Foo { string }, parent }
    let foo = rec(vec![leaf_field("string", "String")]);
    let bar = rec(vec![
        field("inner_foo", "Inner Foo", foo),
        leaf_field("parent", "Parent"),
    ]);
    let rows = vec![comp(vec![comp(vec![text("c")]), text("parent")])];

    let table = table_of(bar, rows).to_table_string();
    assert_eq!(
        r#"
INNER_FOO.STRING PARENT
c                parent
"#,
        no_color_and_line_return(table)
    );
}

#[test]
fn table_test_test_into_field_level() {
    // Foo { #[into = AnotherFoo] foo }, AnotherFoo { lorem }
    let another_foo = rec(vec![leaf_field("lorem", "Lorem")]);
    let foo = rec(vec![field("foo", "Foo", another_foo)]);
    let rows = vec![comp(vec![comp(vec![text(&format!("{}-{}", "a", "b"))])])];

    let table = table_of(foo, rows).to_table_string();

    assert_eq!(
        r#"
FOO.LOREM
a-b
"#,
        no_color_and_line_return(table)
    );
}

#[test]
fn table_test_test_extra_fields() {
    // Foo { first_field, number } with extra_fields = ExtraFieldsStruct { anything }
    let extras = rec(vec![leaf_field("anything", "Anything")]);
    let mut extra = field("ExtraFieldsStruct", "ExtraFieldsStruct", extras);
    extra.extra = true;
    let foo = rec(vec![
        leaf_field("first_field", "First Field"),
        leaf_field("number", "Number"),
        extra,
    ]);
    let number: u32 = 200;
    let rows = vec![comp(vec![
        text("test"),
        text(&number.to_string()),
        comp(vec![text(&format!("{}-{}", "test", number / 10))]),
    ])];

    let table = table_of(foo, rows).to_table_string();
    assert_eq!(
        r#"
FIRST_FIELD NUMBER ANYTHING
test        200    test-20
"#,
        no_color_and_line_return(table)
    );
}

#[test]
fn test_map_all() {
    // Foo { first_field, number } with a struct-level map that blanks every
    // field of a row whose number exceeds two.
    let shape = rec(vec![
        leaf_field("first_field", "First Field"),
        leaf_field("number", "Number"),
    ]);
    let map_all = |first_field: &str, number: u32| {
        let render = |field: String| {
            if number > 2 {
                "-".to_string()
            } else {
                field
            }
        };
        comp(vec![
            text(&render(first_field.to_string())),
            text(&render(number.to_string())),
        ])
    };
    let rows = vec![map_all("test", 200), map_all("test", 1)];

    let table = table_of(shape, rows).to_table_string();
    assert_eq!(
        r#"
FIRST_FIELD NUMBER
-           -
test        1
"#,
        no_color_and_line_return(table)
    );
}
