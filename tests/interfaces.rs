use wit_gen::collect::collect_type_definitions;
use wit_gen::interface::{generate_interface_wit_content, type_closure};
use wit_gen::mapper::rust_type_to_wit;
use wit_gen::model::{
    Attr, EnumCase, EnumDecl, Fields, ImplBlock, Item, Method, NamedField, Param, SourceFile,
    StructDecl, TypeExpr,
};
use wit_gen::naming::{remove_state_suffix, to_kebab_case, validate_name, NamingRule};
use wit_gen::project::{extract_wit_world, is_process_package, plan_project};
use wit_gen::world::{default_world_name, render_world, update_worlds, world_name_of};

fn path(name: &str) -> TypeExpr {
    TypeExpr::Path { ident: name.to_string(), first_arg: None }
}

fn generic(name: &str, arg: TypeExpr) -> TypeExpr {
    TypeExpr::Path { ident: name.to_string(), first_arg: Some(Box::new(arg)) }
}

fn marker(name: &str) -> Attr {
    Attr { ident: Some(name.to_string()), debug: format!("Attribute {{ path: {} }}", name) }
}

fn world_attr(world: &str) -> Attr {
    Attr {
        ident: Some("hyperprocess".to_string()),
        debug: format!(
            "Attribute {{ meta: Meta::List {{ tokens: TokenStream [Ident {{ sym: wit_world }}, Punct {{ char: '=' }}, Literal {{ lit: \"{}\" }}] }} }}",
            world
        ),
    }
}

fn param(name: &str, ty: TypeExpr) -> Param {
    Param::Typed { binding: Some(name.to_string()), ty }
}

fn method(name: &str, markers: &[&str], params: Vec<Param>, output: Option<TypeExpr>) -> Method {
    Method {
        name: name.to_string(),
        attrs: markers.iter().map(|m| marker(m)).collect(),
        params,
        output,
    }
}

fn record(name: &str, fields: Vec<(&str, TypeExpr)>) -> Item {
    Item::Struct(StructDecl {
        name: name.to_string(),
        fields: Fields::Named(
            fields
                .into_iter()
                .map(|(n, ty)| NamedField { name: n.to_string(), ty })
                .collect(),
        ),
    })
}

fn order_project(methods: Vec<Method>) -> SourceFile {
    SourceFile {
        items: vec![
            record("LineItem", vec![("quantity", path("u32"))]),
            Item::Impl(ImplBlock {
                self_ty: path("OrderState"),
                attrs: vec![world_attr("order-world")],
                methods,
            }),
        ],
    }
}

fn map(ty: &TypeExpr) -> String {
    let mut used = Vec::new();
    rust_type_to_wit(ty, &mut used).unwrap()
}

#[test]
fn kebab_case_conversions() {
    assert_eq!(to_kebab_case("OrderState"), "order-state");
    assert_eq!(to_kebab_case("HTMLPage"), "html-page");
    assert_eq!(to_kebab_case("line_item"), "line-item");
    assert_eq!(to_kebab_case("Line_Item"), "Line-Item");
    assert_eq!(to_kebab_case("quantity"), "quantity");
    assert_eq!(to_kebab_case(""), "");
}

#[test]
fn kebab_case_keeps_normal_form() {
    for s in ["order-total", "line-item", "a", "x-y-z"] {
        assert_eq!(to_kebab_case(s), s);
        assert_eq!(to_kebab_case(&to_kebab_case(s)), s);
    }
}

#[test]
fn validation_rejects_digits_and_stream() {
    let e = validate_name("Item2", "Struct").unwrap_err();
    assert_eq!(e.rule, NamingRule::Digit);
    assert_eq!(e.kind, "Struct");
    assert_eq!(e.name, "Item2");
    for name in ["stream", "DataStream", "my_STREAM_x", "StReAm"] {
        let e = validate_name(name, "Type").unwrap_err();
        assert_eq!(e.rule, NamingRule::Stream);
    }
    assert_eq!(validate_name("stream9", "Field").unwrap_err().rule, NamingRule::Digit);
    assert!(validate_name("OrderState", "Interface").is_ok());
    assert!(validate_name("streak", "Field").is_ok());
}

#[test]
fn state_suffix_removed() {
    assert_eq!(remove_state_suffix("OrderState"), "Order");
    assert_eq!(remove_state_suffix("State"), "");
    assert_eq!(remove_state_suffix("Order"), "Order");
    assert_eq!(remove_state_suffix("Statement"), "Statement");
}

#[test]
fn primitives_map_to_fixed_spellings() {
    let table = [
        ("i32", "s32"),
        ("u32", "u32"),
        ("i64", "s64"),
        ("u64", "u64"),
        ("f32", "f32"),
        ("f64", "f64"),
        ("String", "string"),
        ("bool", "bool"),
    ];
    let mut seen = Vec::new();
    for (src, wit) in table {
        let mut used = Vec::new();
        assert_eq!(rust_type_to_wit(&path(src), &mut used).unwrap(), wit);
        assert!(used.is_empty());
        assert!(!seen.contains(&wit));
        seen.push(wit);
    }
}

#[test]
fn nested_list_of_text() {
    let ty = generic("Vec", generic("Vec", path("String")));
    assert_eq!(map(&ty), "list<list<string>>");
    assert_eq!(map(&generic("Option", generic("Vec", path("u64")))), "option<list<u64>>");
    assert_eq!(map(&path("Vec")), "list<any>");
    assert_eq!(map(&path("Option")), "option<any>");
}

#[test]
fn tuples_references_and_fallback() {
    assert_eq!(map(&TypeExpr::Tuple(vec![])), "unit");
    assert_eq!(map(&TypeExpr::Tuple(vec![path("i32"), path("String")])), "tuple<s32, string>");
    assert_eq!(map(&TypeExpr::Reference(Box::new(path("bool")))), "bool");
    assert_eq!(map(&TypeExpr::Other), "unknown");
}

#[test]
fn custom_types_are_recorded_once() {
    let mut used = Vec::new();
    let ty = TypeExpr::Tuple(vec![path("LineItem"), path("LineItem"), path("OrderId")]);
    assert_eq!(rust_type_to_wit(&ty, &mut used).unwrap(), "tuple<line-item, line-item, order-id>");
    assert_eq!(used, vec!["line-item".to_string(), "order-id".to_string()]);
    let e = rust_type_to_wit(&path("Byte8"), &mut used).unwrap_err();
    assert_eq!(e.kind, "Type");
    assert_eq!(e.name, "Byte8");
}

#[test]
fn collector_renders_records_and_variants() {
    let file = SourceFile {
        items: vec![
            record("LineItem", vec![("quantity", path("u32")), ("unit_price", path("u64"))]),
            record("Empty", vec![]),
            Item::Struct(StructDecl { name: "Pair".to_string(), fields: Fields::Unnamed(vec![path("u32")]) }),
            Item::Enum(EnumDecl {
                name: "Status".to_string(),
                cases: vec![
                    EnumCase { name: "Open".to_string(), fields: Fields::Unit },
                    EnumCase { name: "Held".to_string(), fields: Fields::Unnamed(vec![path("String")]) },
                    EnumCase {
                        name: "Moved".to_string(),
                        fields: Fields::Unnamed(vec![path("u32"), path("u32")]),
                    },
                ],
            }),
            Item::Enum(EnumDecl { name: "Nothing".to_string(), cases: vec![] }),
        ],
    };
    let defs = collect_type_definitions(&file).unwrap();
    let names: Vec<&str> = defs.iter().map(|d| d.name.as_str()).collect();
    assert_eq!(names, vec!["line-item", "status", "nothing"]);
    assert_eq!(
        defs[0].text,
        "    record line-item {\n        quantity: u32,\n        unit-price: u64\n    }"
    );
    assert_eq!(defs[1].text, "    variant status {\n        open,\n        held(string),\n        moved\n    }");
    assert_eq!(defs[2].text, "    variant nothing {\n\n    }");
}

#[test]
fn collector_last_declaration_wins() {
    let file = SourceFile {
        items: vec![
            record("Item", vec![("a", path("u32"))]),
            record("item", vec![("b", path("bool"))]),
        ],
    };
    let defs = collect_type_definitions(&file).unwrap();
    assert_eq!(defs.len(), 1);
    assert_eq!(defs[0].text, "    record item {\n        b: bool\n    }");
}

#[test]
fn collector_reports_bad_field_name() {
    let file = SourceFile { items: vec![record("Item", vec![("field1", path("u32"))])] };
    let e = collect_type_definitions(&file).unwrap_err();
    assert_eq!(e.kind, "Field");
    assert_eq!(e.name, "field1");
    assert_eq!(e.rule, NamingRule::Digit);
}

#[test]
fn unmarked_methods_are_not_rendered() {
    let block = ImplBlock {
        self_ty: path("ShopState"),
        attrs: vec![],
        methods: vec![
            method("hidden", &[], vec![Param::Receiver], Some(path("bool"))),
            method("visible", &["local", "remote", "http"], vec![Param::Receiver], None),
        ],
    };
    let text = generate_interface_wit_content(&block, "ShopState", &SourceFile { items: vec![] }).unwrap();
    assert_eq!(
        text,
        "interface shop {\n    use standard.{address};\n\n    //remote\n    //local\n    //http\n    visible: func(target: address) -> result<unit, string>;\n}\n"
    );
    assert!(!text.contains("hidden"));
}

#[test]
fn parameters_skip_receiver_and_patterns() {
    let block = ImplBlock {
        self_ty: path("ShopState"),
        attrs: vec![],
        methods: vec![method(
            "do_it",
            &["http"],
            vec![
                Param::Receiver,
                Param::Typed { binding: None, ty: path("u32") },
                param("self", path("u32")),
                param("count_all", path("i64")),
            ],
            Some(TypeExpr::Tuple(vec![])),
        )],
    };
    let text = generate_interface_wit_content(&block, "Shop", &SourceFile { items: vec![] }).unwrap();
    assert!(text.contains("    //http\n    do-it: func(target: address, count-all: s64) -> result<unit, string>;"));
}

#[test]
fn bad_parameter_name_fails() {
    let block = ImplBlock {
        self_ty: path("ShopState"),
        attrs: vec![],
        methods: vec![method("go", &["remote"], vec![param("in_stream", path("u32"))], None)],
    };
    let e = generate_interface_wit_content(&block, "Shop", &SourceFile { items: vec![] }).unwrap_err();
    assert_eq!(e.kind, "Parameter");
    assert_eq!(e.rule, NamingRule::Stream);
}

#[test]
fn closure_follows_cyclic_references_once() {
    let file = SourceFile {
        items: vec![
            record("Alpha", vec![("next", generic("Option", path("Beta")))]),
            record("Beta", vec![("back", generic("Option", path("Alpha")))]),
            record("Unrelated", vec![("x", path("u32"))]),
        ],
    };
    let defs = collect_type_definitions(&file).unwrap();
    let names = type_closure(&defs, &vec!["alpha".to_string()]);
    assert_eq!(names, vec!["alpha".to_string(), "beta".to_string()]);
    let none = type_closure(&defs, &vec!["missing".to_string()]);
    assert!(none.is_empty());
}

#[test]
fn order_project_end_to_end() {
    let file = order_project(vec![method(
        "order_total",
        &["remote"],
        vec![Param::Receiver, param("item", path("LineItem"))],
        Some(path("bool")),
    )]);
    let plan = plan_project(&file).unwrap();
    assert_eq!(plan.files.len(), 1);
    assert_eq!(plan.files[0].file_name, "order.wit");
    assert_eq!(
        plan.files[0].content,
        "interface order {\n    use standard.{address};\n\n    record line-item {\n        quantity: u32\n    }\n\n    //remote\n    order-total: func(target: address, item: line-item) -> result<bool, string>;\n}\n"
    );
    assert_eq!(plan.export.as_deref(), Some("    export order;"));
}

#[test]
fn project_without_marked_methods_exports_nothing() {
    let file = order_project(vec![method("helper", &[], vec![Param::Receiver], None)]);
    let plan = plan_project(&file).unwrap();
    assert!(plan.files.is_empty());
    assert!(plan.export.is_none());
}

#[test]
fn project_without_world_attribute_exports_nothing() {
    let file = SourceFile {
        items: vec![Item::Impl(ImplBlock {
            self_ty: path("OrderState"),
            attrs: vec![marker("derive")],
            methods: vec![method("go", &["remote"], vec![], None)],
        })],
    };
    let plan = plan_project(&file).unwrap();
    assert!(plan.files.is_empty());
    assert!(plan.export.is_none());
}

#[test]
fn interface_name_is_validated() {
    let file = SourceFile {
        items: vec![Item::Impl(ImplBlock {
            self_ty: path("Order2State"),
            attrs: vec![world_attr("w")],
            methods: vec![],
        })],
    };
    let e = plan_project(&file).unwrap_err();
    assert_eq!(e.kind, "Interface");
    assert_eq!(e.name, "Order2State");
}

#[test]
fn world_attribute_value_is_read() {
    assert_eq!(extract_wit_world(&vec![marker("derive"), world_attr("my-world")]).as_deref(), Some("my-world"));
    assert_eq!(extract_wit_world(&vec![marker("hyperprocess")]), None);
    assert_eq!(extract_wit_world(&vec![]), None);
}

#[test]
fn two_exports_make_default_manifest() {
    let exports = vec!["    export order;".to_string(), "    export shop;".to_string()];
    let update = update_worlds(&vec![], &exports);
    assert!(update.rewritten.is_empty());
    assert_eq!(default_world_name(), "async-app-template-dot-os-v0");
    assert_eq!(
        update.created.as_deref(),
        Some("world async-app-template-dot-os-v0 {\n    export order;\n    export shop;\n    include process-v1;\n}")
    );
}

#[test]
fn existing_manifests_are_rewritten() {
    let exports = vec!["    export order;".to_string()];
    let manifests = vec![
        "interface order {\n}\n".to_string(),
        "package x:y;\n\n  world my-world {\n    import old;\n}\n".to_string(),
        "world other{\r\n}".to_string(),
    ];
    let update = update_worlds(&manifests, &exports);
    assert_eq!(update.rewritten[0], None);
    assert_eq!(
        update.rewritten[1].as_deref(),
        Some("world my-world {\n    export order;\n    include process-v1;\n}")
    );
    assert_eq!(
        update.rewritten[2].as_deref(),
        Some("world other {\n    export order;\n    include process-v1;\n}")
    );
    assert!(update.created.is_none());
}

#[test]
fn no_exports_no_default_manifest() {
    let update = update_worlds(&vec![], &vec![]);
    assert!(update.created.is_none());
}

#[test]
fn world_names_read_from_lines() {
    assert_eq!(world_name_of("world main {").as_deref(), Some("main"));
    assert_eq!(world_name_of("\tworld  spaced   {").as_deref(), Some("spaced"));
    assert_eq!(world_name_of("// a world here\nworld real {").as_deref(), Some("real"));
    assert_eq!(world_name_of("worldly things"), None);
    assert_eq!(world_name_of(""), None);
    assert_eq!(render_world("w", &vec![]), "world w {\n\n    include process-v1;\n}");
}

#[test]
fn naming_error_messages() {
    assert_eq!(
        validate_name("Item2", "Struct").unwrap_err().message(),
        "Error: Struct name 'Item2' contains numbers, which is not allowed"
    );
    assert_eq!(
        validate_name("DataStream", "Type").unwrap_err().message(),
        "Error: Type name 'DataStream' contains 'stream', which is not allowed"
    );
}

#[test]
fn component_package_marker() {
    assert!(is_process_package("hyperware:process"));
    assert!(!is_process_package("hyperware:other"));
    assert!(!is_process_package(""));
}

#[test]
fn non_ascii_names_use_unicode_case() {
    assert_eq!(to_kebab_case("ÉtatÜber"), "état-über");
    assert!(validate_name("STRÉAM", "Type").is_ok());
    assert_eq!(validate_name("ΣSTREAM", "Type").unwrap_err().rule, NamingRule::Stream);
    assert_eq!(world_name_of("\u{2003}world wide {").as_deref(), Some("wide"));
}
