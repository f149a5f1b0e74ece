//! Semantic-resolver tests: parsed declarations in, resolved generator
//! definitions out — ancestor chains, sorted implements sets, signatures.

use jni_generator::ast::JavaClass;
use jni_generator::ast::JavaClassMetadata;
use jni_generator::ast::JavaDefinition;
use jni_generator::ast::JavaDefinitionKind;
use jni_generator::ast::JavaDefinitionMetadata;
use jni_generator::ast::JavaDefinitionMetadataKind;
use jni_generator::ast::JavaDefinitions;
use jni_generator::ast::JavaInterface;
use jni_generator::ast::JavaInterfaceMetadata;
use jni_generator::ast::Metadata;
use jni_generator::error::ErrorKind;
use jni_generator::name::JavaName;
use jni_generator::resolve::to_generator_data;
use jni_generator::resolve::ClassGeneratorDefinition;
use jni_generator::resolve::GeneratorData;
use jni_generator::resolve::GeneratorDefinition;
use jni_generator::resolve::InterfaceGeneratorDefinition;

fn name(parts: &[&str]) -> JavaName {
    JavaName { segments: parts.iter().map(|p| p.to_string()).collect() }
}

fn object() -> JavaName {
    name(&["java", "lang", "Object"])
}

fn class_def(n: &[&str], extends: Option<JavaName>, implements: Vec<JavaName>) -> JavaDefinition {
    JavaDefinition {
        name: name(n),
        public: false,
        definition: JavaDefinitionKind::Class(JavaClass {
            extends,
            implements,
            methods: vec![],
            constructors: vec![],
        }),
    }
}

fn iface_def(n: &[&str], extends: Vec<JavaName>) -> JavaDefinition {
    JavaDefinition {
        name: name(n),
        public: false,
        definition: JavaDefinitionKind::Interface(JavaInterface { extends }),
    }
}

fn class_stub(n: &[&str], extends: Option<JavaName>, implements: Vec<JavaName>) -> JavaDefinitionMetadata {
    JavaDefinitionMetadata {
        name: name(n),
        definition: JavaDefinitionMetadataKind::Class(JavaClassMetadata { extends, implements }),
    }
}

fn iface_stub(n: &[&str], extends: Vec<JavaName>) -> JavaDefinitionMetadata {
    JavaDefinitionMetadata {
        name: name(n),
        definition: JavaDefinitionMetadataKind::Interface(JavaInterfaceMetadata { extends }),
    }
}

fn bare_class(
    simple: &str,
    super_class: JavaName,
    transitive: Vec<JavaName>,
    implements: Vec<JavaName>,
    sig: &str,
    full: &str,
) -> GeneratorDefinition {
    GeneratorDefinition::Class(ClassGeneratorDefinition {
        class: simple.to_string(),
        public: false,
        super_class,
        transitive_extends: transitive,
        implements,
        signature: sig.to_string(),
        full_signature: full.to_string(),
        constructors: vec![],
        methods: vec![],
        static_methods: vec![],
    })
}

#[test]
fn resolve_empty() {
    assert_eq!(
        to_generator_data(&JavaDefinitions {
            definitions: vec![],
            metadata: Metadata { definitions: vec![] },
        })
        .unwrap(),
        GeneratorData { definitions: vec![] }
    );
}

#[test]
fn metadata_only() {
    assert_eq!(
        to_generator_data(&JavaDefinitions {
            definitions: vec![],
            metadata: Metadata {
                definitions: vec![
                    iface_stub(&["c", "d", "test1"], vec![]),
                    class_stub(&["a", "b", "test2"], None, vec![name(&["c", "d", "test1"])]),
                ],
            },
        })
        .unwrap(),
        GeneratorData { definitions: vec![] }
    );
}

#[test]
fn resolve_one_class() {
    // The declared superclass matches no declaration and no stub: resolution
    // rejects the name.
    let r = to_generator_data(&JavaDefinitions {
        definitions: vec![class_def(
            &["a", "b", "test1"],
            Some(name(&["c", "d", "test2"])),
            vec![],
        )],
        metadata: Metadata { definitions: vec![] },
    });
    assert_eq!(r.unwrap_err().kind, ErrorKind::UnresolvedName);
}

#[test]
fn resolve_one_class_no_extends() {
    assert_eq!(
        to_generator_data(&JavaDefinitions {
            definitions: vec![class_def(&["a", "b", "test1"], None, vec![])],
            metadata: Metadata { definitions: vec![] },
        })
        .unwrap(),
        GeneratorData {
            definitions: vec![bare_class(
                "test1",
                object(),
                vec![object()],
                vec![],
                "a/b/test1",
                "La/b/test1;",
            )],
        }
    );
}

#[test]
fn resolve_one_class_extends_recursive() {
    assert_eq!(
        to_generator_data(&JavaDefinitions {
            definitions: vec![
                class_def(&["c", "d", "test2"], Some(name(&["e", "f", "test3"])), vec![]),
                class_def(&["a", "b", "test1"], Some(name(&["c", "d", "test2"])), vec![]),
            ],
            metadata: Metadata {
                definitions: vec![
                    class_stub(&["e", "f", "test4"], None, vec![]),
                    class_stub(&["e", "f", "test3"], Some(name(&["e", "f", "test4"])), vec![]),
                ],
            },
        })
        .unwrap(),
        GeneratorData {
            definitions: vec![
                bare_class(
                    "test2",
                    name(&["e", "f", "test3"]),
                    vec![name(&["e", "f", "test3"]), name(&["e", "f", "test4"]), object()],
                    vec![],
                    "c/d/test2",
                    "Lc/d/test2;",
                ),
                bare_class(
                    "test1",
                    name(&["c", "d", "test2"]),
                    vec![
                        name(&["c", "d", "test2"]),
                        name(&["e", "f", "test3"]),
                        name(&["e", "f", "test4"]),
                        object(),
                    ],
                    vec![],
                    "a/b/test1",
                    "La/b/test1;",
                ),
            ],
        }
    );
}

#[test]
fn resolve_one_class_implements() {
    assert_eq!(
        to_generator_data(&JavaDefinitions {
            definitions: vec![
                iface_def(&["e", "f", "test4"], vec![]),
                class_def(
                    &["a", "b", "test1"],
                    None,
                    vec![name(&["e", "f", "test3"]), name(&["e", "f", "test4"])],
                ),
            ],
            metadata: Metadata {
                definitions: vec![iface_stub(&["e", "f", "test3"], vec![])],
            },
        })
        .unwrap(),
        GeneratorData {
            definitions: vec![
                GeneratorDefinition::Interface(InterfaceGeneratorDefinition {
                    interface: "test4".to_string(),
                    public: false,
                    extends: vec![],
                }),
                bare_class(
                    "test1",
                    object(),
                    vec![object()],
                    vec![name(&["e", "f", "test3"]), name(&["e", "f", "test4"])],
                    "a/b/test1",
                    "La/b/test1;",
                ),
            ],
        }
    );
}

#[test]
fn resolve_one_class_implements_recursive() {
    assert_eq!(
        to_generator_data(&JavaDefinitions {
            definitions: vec![
                iface_def(&["e", "f", "test3"], vec![name(&["e", "f", "test4"])]),
                class_def(&["a", "b", "test1"], None, vec![name(&["e", "f", "test3"])]),
            ],
            metadata: Metadata {
                definitions: vec![
                    iface_stub(&["g", "h", "test5"], vec![]),
                    iface_stub(&["e", "f", "test4"], vec![name(&["g", "h", "test5"])]),
                ],
            },
        })
        .unwrap(),
        GeneratorData {
            definitions: vec![
                GeneratorDefinition::Interface(InterfaceGeneratorDefinition {
                    interface: "test3".to_string(),
                    public: false,
                    extends: vec![name(&["e", "f", "test4"])],
                }),
                bare_class(
                    "test1",
                    object(),
                    vec![object()],
                    vec![
                        name(&["e", "f", "test3"]),
                        name(&["e", "f", "test4"]),
                        name(&["g", "h", "test5"]),
                    ],
                    "a/b/test1",
                    "La/b/test1;",
                ),
            ],
        }
    );
}

#[test]
fn resolve_one_class_implements_recursive_duplicated() {
    assert_eq!(
        to_generator_data(&JavaDefinitions {
            definitions: vec![
                iface_def(&["g", "h", "test4"], vec![]),
                iface_def(&["e", "f", "test3"], vec![name(&["g", "h", "test4"])]),
                class_def(
                    &["a", "b", "test1"],
                    None,
                    vec![name(&["e", "f", "test3"]), name(&["g", "h", "test4"])],
                ),
            ],
            metadata: Metadata { definitions: vec![] },
        })
        .unwrap(),
        GeneratorData {
            definitions: vec![
                GeneratorDefinition::Interface(InterfaceGeneratorDefinition {
                    interface: "test4".to_string(),
                    public: false,
                    extends: vec![],
                }),
                GeneratorDefinition::Interface(InterfaceGeneratorDefinition {
                    interface: "test3".to_string(),
                    public: false,
                    extends: vec![name(&["g", "h", "test4"])],
                }),
                bare_class(
                    "test1",
                    object(),
                    vec![object()],
                    vec![name(&["e", "f", "test3"]), name(&["g", "h", "test4"])],
                    "a/b/test1",
                    "La/b/test1;",
                ),
            ],
        }
    );
}

#[test]
fn resolve_one_class_public() {
    let r = to_generator_data(&JavaDefinitions {
        definitions: vec![JavaDefinition {
            name: name(&["a", "b", "test1"]),
            public: true,
            definition: JavaDefinitionKind::Class(JavaClass {
                extends: None,
                implements: vec![],
                methods: vec![],
                constructors: vec![],
            }),
        }],
        metadata: Metadata { definitions: vec![] },
    })
    .unwrap();
    match &r.definitions[0] {
        GeneratorDefinition::Class(c) => {
            assert!(c.public);
            assert_eq!(c.class, "test1");
        }
        _ => panic!("expected a class"),
    }
}

#[test]
fn resolve_one_interface() {
    assert_eq!(
        to_generator_data(&JavaDefinitions {
            definitions: vec![iface_def(&["a", "b", "test1"], vec![])],
            metadata: Metadata { definitions: vec![] },
        })
        .unwrap(),
        GeneratorData {
            definitions: vec![GeneratorDefinition::Interface(InterfaceGeneratorDefinition {
                interface: "test1".to_string(),
                public: false,
                extends: vec![],
            })],
        }
    );
}

#[test]
fn resolve_one_interface_extends() {
    assert_eq!(
        to_generator_data(&JavaDefinitions {
            definitions: vec![
                iface_def(&["e", "f", "test3"], vec![]),
                iface_def(
                    &["a", "b", "test1"],
                    vec![name(&["c", "d", "test2"]), name(&["e", "f", "test3"])],
                ),
            ],
            metadata: Metadata {
                definitions: vec![
                    iface_stub(&["c", "d", "test4"], vec![]),
                    iface_stub(&["c", "d", "test2"], vec![name(&["c", "d", "test4"])]),
                ],
            },
        })
        .unwrap(),
        GeneratorData {
            definitions: vec![
                GeneratorDefinition::Interface(InterfaceGeneratorDefinition {
                    interface: "test3".to_string(),
                    public: false,
                    extends: vec![],
                }),
                GeneratorDefinition::Interface(InterfaceGeneratorDefinition {
                    interface: "test1".to_string(),
                    public: false,
                    extends: vec![name(&["c", "d", "test2"]), name(&["e", "f", "test3"])],
                }),
            ],
        }
    );
}

#[test]
fn resolve_one_interface_public() {
    let r = to_generator_data(&JavaDefinitions {
        definitions: vec![JavaDefinition {
            name: name(&["a", "b", "test1"]),
            public: true,
            definition: JavaDefinitionKind::Interface(JavaInterface { extends: vec![] }),
        }],
        metadata: Metadata { definitions: vec![] },
    })
    .unwrap();
    match &r.definitions[0] {
        GeneratorDefinition::Interface(f) => {
            assert!(f.public);
            assert_eq!(f.interface, "test1");
        }
        _ => panic!("expected an interface"),
    }
}

#[test]
fn resolve_multiple() {
    assert_eq!(
        to_generator_data(&JavaDefinitions {
            definitions: vec![
                iface_def(&["e", "f", "test_if1"], vec![]),
                iface_def(&["e", "f", "test_if2"], vec![]),
                class_def(&["a", "b", "test1"], None, vec![]),
                class_def(&["test2"], None, vec![]),
            ],
            metadata: Metadata { definitions: vec![] },
        })
        .unwrap(),
        GeneratorData {
            definitions: vec![
                GeneratorDefinition::Interface(InterfaceGeneratorDefinition {
                    interface: "test_if1".to_string(),
                    public: false,
                    extends: vec![],
                }),
                GeneratorDefinition::Interface(InterfaceGeneratorDefinition {
                    interface: "test_if2".to_string(),
                    public: false,
                    extends: vec![],
                }),
                bare_class("test1", object(), vec![object()], vec![], "a/b/test1", "La/b/test1;"),
                bare_class("test2", object(), vec![object()], vec![], "test2", "Ltest2;"),
            ],
        }
    );
}
