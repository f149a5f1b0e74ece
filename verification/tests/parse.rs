//! Declaration-parser tests: inputs in the description language, expected
//! parsed declarations and metadata, and the lexical-shape failures.

use jni_generator::ast::JavaClass;
use jni_generator::ast::JavaClassMetadata;
use jni_generator::ast::JavaDefinition;
use jni_generator::ast::JavaDefinitionKind;
use jni_generator::ast::JavaDefinitionMetadata;
use jni_generator::ast::JavaDefinitionMetadataKind;
use jni_generator::ast::JavaDefinitions;
use jni_generator::ast::JavaInterface;
use jni_generator::ast::JavaInterfaceMetadata;
use jni_generator::ast::Metadata;
use jni_generator::error::ErrorKind;
use jni_generator::name::JavaName;
use jni_generator::parse::parse_java_definition;
use jni_generator::token::lex;
use jni_generator::token::Token;

fn toks(src: &str) -> Vec<Token> {
    lex(src).expect("input must lex")
}

fn name(parts: &[&str]) -> JavaName {
    JavaName { segments: parts.iter().map(|p| p.to_string()).collect() }
}

fn parse(src: &str) -> JavaDefinitions {
    parse_java_definition(&toks(src)).expect("input must parse")
}

fn parse_err(src: &str) -> ErrorKind {
    parse_java_definition(&toks(src)).expect_err("input must be rejected").kind
}

#[test]
fn empty() {
    assert_eq!(
        parse(""),
        JavaDefinitions {
            definitions: vec![],
            metadata: Metadata { definitions: vec![] },
        }
    );
}

#[test]
fn one_class() {
    assert_eq!(
        parse("class TestClass1 {}"),
        JavaDefinitions {
            definitions: vec![JavaDefinition {
                name: name(&["TestClass1"]),
                public: false,
                definition: JavaDefinitionKind::Class(JavaClass {
                    extends: None,
                    implements: vec![],
                    methods: vec![],
                    constructors: vec![],
                }),
            }],
            metadata: Metadata { definitions: vec![] },
        }
    );
}

#[test]
fn one_class_extends() {
    assert_eq!(
        parse("class TestClass1 extends test1 {}"),
        JavaDefinitions {
            definitions: vec![JavaDefinition {
                name: name(&["TestClass1"]),
                public: false,
                definition: JavaDefinitionKind::Class(JavaClass {
                    extends: Some(name(&["test1"])),
                    implements: vec![],
                    methods: vec![],
                    constructors: vec![],
                }),
            }],
            metadata: Metadata { definitions: vec![] },
        }
    );
}

#[test]
fn one_class_public() {
    assert_eq!(
        parse("public class TestClass1 {}"),
        JavaDefinitions {
            definitions: vec![JavaDefinition {
                name: name(&["TestClass1"]),
                public: true,
                definition: JavaDefinitionKind::Class(JavaClass {
                    extends: None,
                    implements: vec![],
                    methods: vec![],
                    constructors: vec![],
                }),
            }],
            metadata: Metadata { definitions: vec![] },
        }
    );
}

#[test]
fn one_class_packaged() {
    assert_eq!(
        parse("class a.b.TestClass1 {}"),
        JavaDefinitions {
            definitions: vec![JavaDefinition {
                name: name(&["a", "b", "TestClass1"]),
                public: false,
                definition: JavaDefinitionKind::Class(JavaClass {
                    extends: None,
                    implements: vec![],
                    methods: vec![],
                    constructors: vec![],
                }),
            }],
            metadata: Metadata { definitions: vec![] },
        }
    );
}

#[test]
fn one_class_implements() {
    assert_eq!(
        parse("class TestClass1 implements test2, a.b.test3 {}"),
        JavaDefinitions {
            definitions: vec![JavaDefinition {
                name: name(&["TestClass1"]),
                public: false,
                definition: JavaDefinitionKind::Class(JavaClass {
                    extends: None,
                    implements: vec![name(&["test2"]), name(&["a", "b", "test3"])],
                    methods: vec![],
                    constructors: vec![],
                }),
            }],
            metadata: Metadata { definitions: vec![] },
        }
    );
}

#[test]
fn one_interface() {
    assert_eq!(
        parse("interface TestInterface1 {}"),
        JavaDefinitions {
            definitions: vec![JavaDefinition {
                name: name(&["TestInterface1"]),
                public: false,
                definition: JavaDefinitionKind::Interface(JavaInterface { extends: vec![] }),
            }],
            metadata: Metadata { definitions: vec![] },
        }
    );
}

#[test]
fn one_interface_public() {
    assert_eq!(
        parse("public interface TestInterface1 {}"),
        JavaDefinitions {
            definitions: vec![JavaDefinition {
                name: name(&["TestInterface1"]),
                public: true,
                definition: JavaDefinitionKind::Interface(JavaInterface { extends: vec![] }),
            }],
            metadata: Metadata { definitions: vec![] },
        }
    );
}

#[test]
fn one_interface_packaged() {
    assert_eq!(
        parse("interface a.b.TestInterface1 {}"),
        JavaDefinitions {
            definitions: vec![JavaDefinition {
                name: name(&["a", "b", "TestInterface1"]),
                public: false,
                definition: JavaDefinitionKind::Interface(JavaInterface { extends: vec![] }),
            }],
            metadata: Metadata { definitions: vec![] },
        }
    );
}

#[test]
fn one_interface_extends() {
    assert_eq!(
        parse("interface TestInterface1 extends TestInterface2, a.b.TestInterface3 {}"),
        JavaDefinitions {
            definitions: vec![JavaDefinition {
                name: name(&["TestInterface1"]),
                public: false,
                definition: JavaDefinitionKind::Interface(JavaInterface {
                    extends: vec![
                        name(&["TestInterface2"]),
                        name(&["a", "b", "TestInterface3"]),
                    ],
                }),
            }],
            metadata: Metadata { definitions: vec![] },
        }
    );
}

#[test]
fn multiple() {
    assert_eq!(
        parse(
            "interface TestInterface1 {}\n\
             interface TestInterface2 {}\n\
             class TestClass1 {}\n\
             class TestClass2 {}"
        ),
        JavaDefinitions {
            definitions: vec![
                JavaDefinition {
                    name: name(&["TestInterface1"]),
                    public: false,
                    definition: JavaDefinitionKind::Interface(JavaInterface { extends: vec![] }),
                },
                JavaDefinition {
                    name: name(&["TestInterface2"]),
                    public: false,
                    definition: JavaDefinitionKind::Interface(JavaInterface { extends: vec![] }),
                },
                JavaDefinition {
                    name: name(&["TestClass1"]),
                    public: false,
                    definition: JavaDefinitionKind::Class(JavaClass {
                        extends: None,
                        implements: vec![],
                        methods: vec![],
                        constructors: vec![],
                    }),
                },
                JavaDefinition {
                    name: name(&["TestClass2"]),
                    public: false,
                    definition: JavaDefinitionKind::Class(JavaClass {
                        extends: None,
                        implements: vec![],
                        methods: vec![],
                        constructors: vec![],
                    }),
                },
            ],
            metadata: Metadata { definitions: vec![] },
        }
    );
}

#[test]
fn metadata_empty() {
    assert_eq!(
        parse("metadata {}"),
        JavaDefinitions {
            definitions: vec![],
            metadata: Metadata { definitions: vec![] },
        }
    );
}

#[test]
fn metadata() {
    assert_eq!(
        parse(
            "metadata {\n\
               interface TestInterface1 {}\n\
               interface TestInterface2 extends TestInterface1 {}\n\
               class TestClass2;\n\
               class TestClass1 extends TestClass2 implements TestInterface1, TestInterface2;\n\
             }"
        ),
        JavaDefinitions {
            definitions: vec![],
            metadata: Metadata {
                definitions: vec![
                    JavaDefinitionMetadata {
                        name: name(&["TestInterface1"]),
                        definition: JavaDefinitionMetadataKind::Interface(JavaInterfaceMetadata {
                            extends: vec![],
                        }),
                    },
                    JavaDefinitionMetadata {
                        name: name(&["TestInterface2"]),
                        definition: JavaDefinitionMetadataKind::Interface(JavaInterfaceMetadata {
                            extends: vec![name(&["TestInterface1"])],
                        }),
                    },
                    JavaDefinitionMetadata {
                        name: name(&["TestClass2"]),
                        definition: JavaDefinitionMetadataKind::Class(JavaClassMetadata {
                            extends: None,
                            implements: vec![],
                        }),
                    },
                    JavaDefinitionMetadata {
                        name: name(&["TestClass1"]),
                        definition: JavaDefinitionMetadataKind::Class(JavaClassMetadata {
                            extends: Some(name(&["TestClass2"])),
                            implements: vec![
                                name(&["TestInterface1"]),
                                name(&["TestInterface2"]),
                            ],
                        }),
                    },
                ],
            },
        }
    );
}

#[test]
fn invalid_definition_kind() {
    assert_eq!(parse_err("invalid 1"), ErrorKind::ExpectedKind);
}

#[test]
fn too_few_tokens() {
    assert_eq!(parse_err("class"), ErrorKind::ExpectedName);
}

#[test]
fn definition_name_not_identifier_after_dot() {
    assert_eq!(parse_err("class a.1 {}"), ErrorKind::ExpectedIdent);
}

#[test]
fn definition_name_no_dot_after_identifier() {
    assert_eq!(parse_err("class a b {}"), ErrorKind::ExpectedDot);
}

#[test]
fn definition_name_not_dot_punctuation() {
    assert_eq!(parse_err("class a,b {}"), ErrorKind::ExpectedDot);
}

#[test]
fn metadata_not_group() {
    assert_eq!(parse_err("metadata abc"), ErrorKind::ExpectedBraces);
}

#[test]
fn metadata_not_braces_group() {
    assert_eq!(parse_err("metadata ()"), ErrorKind::ExpectedBraces);
}

#[test]
fn invalid_definition_metadata_kind() {
    assert_eq!(parse_err("metadata {\nabc\n}"), ErrorKind::ExpectedKind);
}

#[test]
fn class_with_members() {
    let parsed = parse(
        "public class a.b.TestClass3 extends c.d.TestClass2 {\n\
           public a.b.TestClass3(int arg1, a.b.TestClass3 arg2);\n\
           long primitiveFunc3(int arg1, char arg2);\n\
           static long primitiveStaticFunc3(int arg1, char arg2);\n\
         }",
    );
    assert_eq!(parsed.definitions.len(), 1);
    let def = &parsed.definitions[0];
    assert_eq!(def.name, name(&["a", "b", "TestClass3"]));
    assert!(def.public);
    match &def.definition {
        JavaDefinitionKind::Class(c) => {
            assert_eq!(c.extends, Some(name(&["c", "d", "TestClass2"])));
            assert_eq!(c.constructors.len(), 1);
            assert!(c.constructors[0].public);
            assert_eq!(c.constructors[0].arguments.len(), 2);
            assert_eq!(c.constructors[0].arguments[0].name, "arg1");
            assert_eq!(c.constructors[0].arguments[0].data_type, name(&["int"]));
            assert_eq!(c.constructors[0].arguments[1].data_type, name(&["a", "b", "TestClass3"]));
            assert_eq!(c.methods.len(), 2);
            assert_eq!(c.methods[0].name, "primitiveFunc3");
            assert_eq!(c.methods[0].return_type, name(&["long"]));
            assert!(!c.methods[0].is_static);
            assert!(c.methods[1].is_static);
        }
        _ => panic!("expected a class"),
    }
}

#[test]
fn metadata_word_without_block() {
    assert_eq!(parse_err("metadata"), ErrorKind::ExpectedKind);
}

#[test]
fn header_without_body() {
    assert_eq!(parse_err("class A"), ErrorKind::ExpectedBody);
}

#[test]
fn body_without_header() {
    assert_eq!(parse_err("class A {} {}"), ErrorKind::ExpectedKind);
}

#[test]
fn method_without_argument_list() {
    assert_eq!(parse_err("class A { int f x; }"), ErrorKind::ExpectedArguments);
}

#[test]
fn argument_without_name() {
    assert_eq!(parse_err("class A { int f(int 1); }"), ErrorKind::ExpectedArgumentName);
}

#[test]
fn method_without_name() {
    assert_eq!(parse_err("class A { x; }"), ErrorKind::ExpectedMethodName);
}
