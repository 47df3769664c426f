use descriptor::object_describe_to_string;
use descriptor::table_describe_to_string;
use descriptor::Datum;
use descriptor::FieldShape;
use descriptor::Record;
use descriptor::RecordShape;
use descriptor::Shape;
use descriptor::StringMap;

pub fn no_color(str: String) -> String {
    strip_ansi_escapes::strip_str(str)
}

fn field(name: &str, label: &str, child: Shape) -> FieldShape {
    FieldShape {
        name: name.to_string(),
        label: label.to_string(),
        child,
        flatten: false,
        skip_header: false,
        skip_describe: false,
        embed_table: false,
        extra: false,
        rename: None,
    }
}

fn leaf_field(name: &str, label: &str) -> FieldShape {
    field(name, label, Shape::Leaf)
}

fn flatten_field(name: &str, label: &str, child: Shape) -> FieldShape {
    let mut f = field(name, label, child);
    f.flatten = true;
    f
}

fn extra_field(name: &str, child: Shape) -> FieldShape {
    let mut f = field(name, name, child);
    f.extra = true;
    f
}

fn rec(fields: Vec<FieldShape>) -> Shape {
    Shape::Composite(RecordShape {
        fields,
        header_override: None,
    })
}

fn text(s: &str) -> Datum {
    Datum::Text(s.to_string())
}

fn comp(vals: Vec<Datum>) -> Datum {
    Datum::Composite(vals)
}

fn record(shape: Shape, data: Datum) -> Record {
    Record::new(shape, data).unwrap()
}

#[test]
fn test_flatten() {
    // Foo { loooooooong, #[flatten] child: ChildFoo { twoooo, #[flatten] child: GrandKid { one } } }
    let grand_kid = rec(vec![leaf_field("one", "One")]);
    let child_foo = rec(vec![
        leaf_field("twoooo", "Twoooo"),
        flatten_field("child", "Child", grand_kid),
    ]);
    let foo = rec(vec![
        leaf_field("loooooooong", "Loooooooong"),
        flatten_field("child", "Child", child_foo),
    ]);
    let data = comp(vec![
        text("one"),
        comp(vec![text("two"), comp(vec![text("tee")])]),
    ]);
    let description = object_describe_to_string(&record(foo, data));
    assert_eq!(
        r#"
Loooooooong: one
Twoooo:      two
One:         tee
"#,
        description
    );
}

#[test]
fn test_func() {
    // Foo { #[map] time, #[map, resolve_option] optional_some, optional_none };
    // the mapping runs when the record is registered, producing Bar values.
    fn map_test(val: u64) -> Datum {
        comp(vec![text(&format!("{} seconds", val))])
    }
    let bar = || rec(vec![leaf_field("test", "Test")]);
    let foo = rec(vec![
        field("time", "Time", bar()),
        field("optional_some", "Optional Some", Shape::Optional(Box::new(bar()))),
        field("optional_none", "Optional None", Shape::Optional(Box::new(bar()))),
    ]);
    let data = comp(vec![
        map_test(10000),
        Datum::Optional(Some(Box::new(map_test(10)))),
        Datum::Optional(None),
    ]);
    let foo_record = record(foo, data);
    let _description = object_describe_to_string(&foo_record);

    let result = table_describe_to_string(&vec![foo_record]);
    println!("{}", result)
}

#[test]
fn test_vec() {
    // Foo { list: Vec<ListBar>, string_list: Vec<String> };
    // ListBar { first_field, child: FooChild, second: Vec<FooChild> }
    let foo_child = || rec(vec![leaf_field("anything", "Anything")]);
    let list_bar = rec(vec![
        leaf_field("first_field", "First Field"),
        field("child", "Child", foo_child()),
        field("second", "Second", Shape::Listing(Box::new(foo_child()))),
    ]);
    let foo = rec(vec![
        field("list", "List", Shape::Listing(Box::new(list_bar))),
        field("string_list", "String List", Shape::Listing(Box::new(Shape::Leaf))),
    ]);
    let list_bar_datum = |first: &str| {
        comp(vec![
            text(first),
            comp(vec![text("any")]),
            Datum::Listing(vec![comp(vec![text("foo")])]),
        ])
    };
    let data = comp(vec![
        Datum::Listing(vec![list_bar_datum("first"), list_bar_datum("second")]),
        Datum::Listing(vec![text("test"), text("test2")]),
    ]);
    let table = object_describe_to_string(&record(foo, data));

    assert_eq!(
        r#"
List:
- First Field: first
  Child:
    Anything: any
  Second:
  - Anything: foo
- First Field: second
  Child:
    Anything: any
  Second:
  - Anything: foo
String List:
- test
- test2
"#,
        no_color(table)
    );
}

#[test]
fn test_into_struct_level() {
    // TestFrom/TestInto convert whole values into a receiver before
    // rendering: the registered record is the converted receiver.
    let receiver = || rec(vec![leaf_field("recv", "Recv")]);
    let convert = |foo: &str, bar: &str| comp(vec![text(&format!("{}-{}", foo, bar))]);

    let from = object_describe_to_string(&record(receiver(), convert("foo", "bar")));
    println!("{}", from);

    assert_eq!("\nRecv: foo-bar\n", from);

    let into = object_describe_to_string(&record(receiver(), convert("foo", "bar")));

    assert_eq!("\nRecv: foo-bar\n", into)
}

#[test]
fn describe_test_test_into_field_level() {
    // Foo { #[into = Bar] foo, #[into = Bar, map = test] bar }
    let bar = || rec(vec![leaf_field("foo", "Foo")]);
    let foo = rec(vec![
        field("foo", "Foo", bar()),
        field("bar", "Bar", bar()),
    ]);
    let from = |a: &str, b: &str| comp(vec![text(&format!("{}-{}", a, b))]);
    let data = comp(vec![from("a", "b"), from("b", "a")]);
    let string = object_describe_to_string(&record(foo, data));
    println!("{}", string);
    assert_eq!("\nFoo:\n  Foo: a-b\nBar:\n  Foo: b-a\n", string)
}

#[test]
fn test_table_description() {
    // Foo { history_no_table: Vec<InnerFoo>, #[output_table] history: Vec<InnerFoo> }
    let inner = || rec(vec![leaf_field("state", "State"), leaf_field("value", "Value")]);
    let mut history = field("history", "History", Shape::Listing(Box::new(inner())));
    history.embed_table = true;
    let foo = rec(vec![
        field(
            "history_no_table",
            "History No Table",
            Shape::Listing(Box::new(inner())),
        ),
        history,
    ]);
    let item = |s: &str, v: &str| comp(vec![text(s), text(v)]);
    let list = || vec![item("test", "t"), item("t", "test")];
    let data = comp(vec![Datum::Listing(list()), Datum::Listing(list())]);
    let description = object_describe_to_string(&record(foo, data));
    assert_eq!(
        r#"
History No Table:
- State: test
  Value: t
- State: t
  Value: test
History:
  STATE   VALUE
  test    t
  t       test
"#,
        no_color(description)
    );
}

#[test]
fn test_describe_enum() {
    // Foo { enum_field: Bar, enum_renamed: Bar }; the enumeration renders as
    // its (possibly renamed) variant label.
    let foo = rec(vec![
        leaf_field("enum_field", "Enum Field"),
        leaf_field("enum_renamed", "Enum Renamed"),
    ]);
    let data = comp(vec![text("SomeEnum"), text("Rename AnnotationValue")]);
    let description = object_describe_to_string(&record(foo, data));
    assert_eq!(
        r#"
Enum Field:   SomeEnum
Enum Renamed: Rename AnnotationValue
"#,
        no_color(description)
    );
}

#[test]
fn describe_test_test_extra_fields() {
    // Foo { first_field, number } with extra_fields = ExtraFieldsStruct { anything }
    let extras = rec(vec![leaf_field("anything", "Anything")]);
    let foo = rec(vec![
        leaf_field("first_field", "First Field"),
        leaf_field("number", "Number"),
        extra_field("ExtraFieldsStruct", extras),
    ]);
    let number: u32 = 200;
    let data = comp(vec![
        text("test"),
        text(&number.to_string()),
        comp(vec![text(&format!("{}-{}", "test", number / 10))]),
    ]);
    let description = object_describe_to_string(&record(foo, data));
    assert_eq!(
        r#"
First Field: test
Number:      200
Anything:    test-20
"#,
        no_color(description)
    );
}

#[test]
fn test_map() {
    // B { map: HashMap<String, String> }, keys rendered in sorted order.
    let b = rec(vec![field("map", "Map", Shape::Mapping(Box::new(Shape::Leaf)))]);
    let data = comp(vec![Datum::Mapping(vec![
        ("f".to_string(), text("f")),
        ("test".to_string(), text("f")),
    ])]);
    let description = object_describe_to_string(&record(b, data));
    assert_eq!(
        r#"
Map:
  f:    f
  test: f
"#,
        no_color(description)
    );
}

#[test]
fn test_map_adapter() {
    // The same layout through the typed string-keyed map adapter, whichever
    // order the entries arrive in.
    let mut map: StringMap<String> = StringMap::new();
    map.insert("test".to_string(), "f".to_string());
    map.insert("f".to_string(), "f".to_string());
    let mut out = String::new();
    descriptor::Describer::describe_object(&map, &mut out, descriptor::Context::default());
    assert_eq!("\nf:    f\ntest: f\n", out);
}
