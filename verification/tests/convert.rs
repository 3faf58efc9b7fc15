use graft::Json;
use graft::StaticContext;

fn plain(value: &Json) -> serde_json::Value {
    match value {
        Json::Null => serde_json::Value::Null,
        Json::Bool(b) => serde_json::Value::Bool(*b),
        Json::Number(n) => serde_json::Value::Number(n.clone()),
        Json::String(s) => serde_json::Value::String(s.clone()),
        Json::Array(items) => serde_json::Value::Array(items.iter().map(plain).collect()),
        Json::Object(entries) => serde_json::Value::Object(
            entries.iter().map(|(key, item)| (key.clone(), plain(item))).collect(),
        ),
    }
}

fn json(text: &str) -> serde_json::Value {
    serde_json::from_str(text).unwrap()
}

fn t(txt: &str, ctx: &mut StaticContext, reference: serde_json::Value) {
    let output = graft::convert(&textwrap::dedent(txt.trim_end()), ctx).unwrap();
    assert_eq!(reference, plain(&output));
}

fn store() -> StaticContext {
    StaticContext::new(
        "foo.json",
        r#"
            {
                "hello": "world",
                "main": {
                    "$ref": "main",
                    "default": "yo"
                },
                "obj": {
                    "list": {
                        "$ref": "children[]"
                    }
                },
                "main2": {
                    "$ref": "main2",
                    "default": "yo2"
                }
            }
            "#,
    )
    .with("title.txt", "this is the title")
    .with(
        "bar.json",
        r#"{
                "bar": {
                    "$ref": "bar"
                }
            }"#,
    )
    .with(
        "nested_bar.json",
        r#"{
                "bar": {
                    "$ref": "bar",
                    "default": "ho ho ho"
                },
                "title": {
                    "$ref": "/title"
                }
            }"#,
    )
    .with("foo2.graft", "-- $foo\n-- @main $bar\n")
    .with(
        "nested.json",
        r#"{
                "title": {
                    "$ref": "title"
                },
                "obj": {
                    "title": {
                        "$ref": "title"
                    }
                }
            }"#,
    )
    .with(
        "array.json",
        r#"{
                "title": {
                    "$ref": "title"
                },
                "obj": [{
                    "title": {
                        "$ref": "title"
                    }
                }]
            }"#,
    )
    .with(
        "array2.json",
        r#"{
                "title": {
                    "$ref": "title"
                },
                "obj": [{
                    "$ref": "title"
                }]
            }"#,
    )
    .with(
        "hfloat.json",
        r#"{
                "id": {
                    "$ref": "id"
                },
                "floaters": {
                    "$ref": "floaters[]"
                }
            }"#,
    )
}

#[test]
fn convert() {
    let mut ctx = store();

    t(
        r#"
                -- $hfloat
                id: top
                -- @floaters[] $hfloat
                id: first child
                -- @floaters[]/floaters[] $hfloat
                id: first first child
                -- @floaters[] $hfloat
                id: second child
                -- @floaters[]/floaters[] $hfloat
                id: second first child
            "#,
        &mut ctx,
        json(
            r#"{
                "id": "top",
                "floaters": [
                    {
                        "id": "first child",
                        "floaters": [
                            {"id": "first first child", "floaters": []}
                        ]
                    },
                    {
                        "id": "second child",
                        "floaters": [
                            {"id": "second first child", "floaters": []}
                        ]
                    }
                ]
            }"#,
        ),
    );

    t(
        r#"
                -- $hfloat
                id: top
                -- @floaters[] $hfloat
                id: first child
                -- @floaters[] $hfloat
                id: second child
                -- @floaters[]/floaters[] $hfloat
                id: second first child
            "#,
        &mut ctx,
        json(
            r#"{
                "id": "top",
                "floaters": [
                    {"id": "first child", "floaters": []},
                    {
                        "id": "second child",
                        "floaters": [
                            {"id": "second first child", "floaters": []}
                        ]
                    }
                ]
            }"#,
        ),
    );

    t(
        r#"
                -- @ROOT ~json
                {
                    "yo": "man"
                }
            "#,
        &mut ctx,
        json(r#"{"yo": "man"}"#),
    );

    t(
        r#"
                -- @ROOT
                yo: man
            "#,
        &mut ctx,
        json(r#"{"yo": "man"}"#),
    );

    t(
        r"-- @ROOT $foo",
        &mut ctx,
        json(
            r#"{
                "hello": "world",
                "main": "yo",
                "obj": {
                    "list": []
                },
                "main2": "yo2"
            }"#,
        ),
    );

    t(
        r#"
                -- $foo
                -- @main ~text
                hello main
            "#,
        &mut ctx,
        json(
            r#"{
                "hello": "world",
                "main": "hello main",
                "obj": {
                    "list": []
                },
                "main2": "yo2"
            }"#,
        ),
    );

    t(
        r#"
                -- $foo
                main: hello main
            "#,
        &mut ctx,
        json(
            r#"{
                "hello": "world",
                "main": "hello main",
                "obj": {
                    "list": []
                },
                "main2": "yo2"
            }"#,
        ),
    );

    t(
        r#"
                -- @ROOT $foo
                -- @main ~text
                hello main
            "#,
        &mut ctx,
        json(
            r#"{
                "hello": "world",
                "main": "hello main",
                "obj": {
                    "list": []
                },
                "main2": "yo2"
            }"#,
        ),
    );

    t(
        r#"
                -- $foo
                -- @main $title ~text
            "#,
        &mut ctx,
        json(
            r#"{
                "hello": "world",
                "main": "this is the title",
                "obj": {
                    "list": []
                },
                "main2": "yo2"
            }"#,
        ),
    );

    t(
        r#"
                -- $foo
                -- @main $bar
                -- @main/bar
                x: 20
                y: 10
            "#,
        &mut ctx,
        json(
            r#"{
                "hello": "world",
                "main": {
                    "bar": {
                        "y": 10,
                        "x": 20
                    }
                },
                "obj": {
                    "list": []
                },
                "main2": "yo2"
            }"#,
        ),
    );

    t(
        r#"
                -- $foo2
                -- @main/bar
                x: 20
                y: 10
            "#,
        &mut ctx,
        json(
            r#"{
                "hello": "world",
                "main": {
                    "bar": {
                        "y": 10,
                        "x": 20
                    }
                },
                "obj": {
                    "list": []
                },
                "main2": "yo2"
            }"#,
        ),
    );

    t(
        r#"
                -- $foo2
                main2: la la la
                -- @main/bar
                x: 20
                y: 10
            "#,
        &mut ctx,
        json(
            r#"{
                "hello": "world",
                "main": {
                    "bar": {
                        "y": 10,
                        "x": 20
                    }
                },
                "obj": {
                    "list": []
                },
                "main2": "la la la"
            }"#,
        ),
    );

    t(
        r#"
                -- $foo
                -- @main $bar
                -- @main/bar
                x: 20
                y: 10
                -- @main2 $bar
                -- @main2/bar
                a: 20
                b: 10
            "#,
        &mut ctx,
        json(
            r#"{
                "hello": "world",
                "main": {
                    "bar": {
                        "y": 10,
                        "x": 20
                    }
                },
                "obj": {
                    "list": []
                },
                "main2": {
                    "bar": {
                        "b": 10,
                        "a": 20
                    }
                }
            }"#,
        ),
    );

    t(
        r#"
                -- $foo
                -- @main $title ~text
                -- @children[] ~text
                child 1
            "#,
        &mut ctx,
        json(
            r#"{
                "hello": "world",
                "main": "this is the title",
                "obj": {
                    "list": ["child 1"]
                },
                "main2": "yo2"
            }"#,
        ),
    );

    t(
        r#"
                -- $foo
                -- @main $title ~text
                -- @children[] ~text
                child 1
                -- @children[] ~text
                child 2
            "#,
        &mut ctx,
        json(
            r#"{
                "hello": "world",
                "main": "this is the title",
                "obj": {
                    "list": ["child 1", "child 2"]
                },
                "main2": "yo2"
            }"#,
        ),
    );

    t(
        r#"
                -- $foo
                -- @main $title ~text
                -- @children[] $bar
                -- @children[]/bar
                a: 20
                b: 10
                -- @children[] $bar
                -- @children[]/bar
                x: 20
                y: 10
            "#,
        &mut ctx,
        json(
            r#"{
                "hello": "world",
                "main": "this is the title",
                "obj": {
                    "list": [
                        {
                            "bar": {
                                "b": 10,
                                "a": 20
                            }
                        },
                        {
                            "bar": {
                                "y": 10,
                                "x": 20
                            }
                        }
                    ]
                },
                "main2": "yo2"
            }"#,
        ),
    );

    t(
        r#"
                -- $foo
                -- @main $title ~text
                -- @children[] $bar
                -- @children[]/bar
                a: 20
                b: 10
                -- @children[] $foo
                -- @children[]/children[] ~text
                nested child
                -- @children[]/main ~text
                inner main
            "#,
        &mut ctx,
        json(
            r#"{
                "hello": "world",
                "main": "this is the title",
                "obj": {
                    "list": [
                        {
                            "bar": {
                                "b": 10,
                                "a": 20
                            }
                        },
                        {
                            "hello": "world",
                            "main": "inner main",
                            "obj": {
                                "list": ["nested child"]
                            },
                            "main2": "yo2"
                        }
                    ]
                },
                "main2": "yo2"
            }"#,
        ),
    );

    t(
        r#"
                -- $nested
                -- @title ~text
                the title
            "#,
        &mut ctx,
        json(
            r#"{
                "title": "the title",
                "obj": {
                    "title": "the title"
                }
            }"#,
        ),
    );

    t(
        r#"
                -- $array
                -- @title ~text
                the title
            "#,
        &mut ctx,
        json(
            r#"{
                "title": "the title",
                "obj": [{
                    "title": "the title"
                }]
            }"#,
        ),
    );

    t(
        r#"
                -- @ROOT ~table
                Header 1,Header 2
                Cell Data 1,Cell Data 2
                Cell Data 3,Cell Data 4
            "#,
        &mut ctx,
        json(
            r#"[
                ["Header 1", "Header 2"],
                ["Cell Data 1", "Cell Data 2"],
                ["Cell Data 3", "Cell Data 4"]
            ]"#,
        ),
    );

    t(
        r#"
                -- @ROOT ~md
                /-- @content[]/faq[] $faq_item
            "#,
        &mut ctx,
        json(r#""<p>-- @content[]/faq[] $faq_item</p>\n""#),
    );

    t(
        r#"
                -- @ROOT ~md
                //-- @content[]/faq[] $faq_item
            "#,
        &mut ctx,
        json(r#""<p>/-- @content[]/faq[] $faq_item</p>\n""#),
    );
}
