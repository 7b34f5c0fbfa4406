use cpp20modules_tools::{
    generate_modmap, Compiler, Cpp20ModulesInfo, Ddi, Module, Provide, Reference, Require, Rule,
    StrMap,
};

fn get_sample_cpp20modules_info() -> Cpp20ModulesInfo {
    let mut modules: StrMap<Module> = StrMap::new();
    modules.insert(
        "bar".to_string(),
        Module { bmi: "cmake-build-debug/CMakeFiles/bar.dir/bar.pcm".into(), is_private: false },
    );
    let mut references: StrMap<Reference> = StrMap::new();
    references.insert(
        "bar".to_string(),
        Reference { lookup_method: "by-name".into(), path: "CMakeFiles/bar.dir/bar.pcm".into() },
    );
    references.insert(
        "foo".to_string(),
        Reference { lookup_method: "by-name".into(), path: "CMakeFiles/foo.dir/foo.pcm".into() },
    );
    Cpp20ModulesInfo { modules, references, usages: StrMap::new() }
}

fn get_sample_cpp20modules_info_without_foo() -> Cpp20ModulesInfo {
    let mut modules: StrMap<Module> = StrMap::new();
    modules.insert(
        "bar".to_string(),
        Module { bmi: "cmake-build-debug/CMakeFiles/bar.dir/bar.pcm".into(), is_private: false },
    );
    let mut references: StrMap<Reference> = StrMap::new();
    references.insert(
        "bar".to_string(),
        Reference { lookup_method: "by-name".into(), path: "CMakeFiles/bar.dir/bar.pcm".into() },
    );
    Cpp20ModulesInfo { modules, references, usages: StrMap::new() }
}

fn get_sample_ddi() -> Ddi {
    Ddi {
        revision: 0,
        rules: vec![Rule {
            primary_output: "CMakeFiles/bar.dir/bar.cpp.o".into(),
            provides: vec![Provide {
                is_interface: true,
                logical_name: "bar".into(),
                source_path: "demo/bar.cpp".into(),
            }],
            requires: vec![Require { logical_name: "foo".into() }],
        }],
        version: 1,
    }
}

#[test]
fn test_generate_modmap_clang() {
    let compiler = Compiler::Clang;
    let cpp20modules_info = get_sample_cpp20modules_info();
    let ddi = get_sample_ddi();

    let result = generate_modmap(compiler, &cpp20modules_info, &ddi).unwrap();
    let expected = "-x c++-module\n-fmodule-output=cmake-build-debug/CMakeFiles/bar.dir/bar.pcm\n-fmodule-file=foo=CMakeFiles/foo.dir/foo.pcm\n";
    assert_eq!(result, expected);
}

#[test]
fn test_generate_modmap_gcc() {
    let compiler = Compiler::Gcc;
    let cpp20modules_info = get_sample_cpp20modules_info();
    let ddi = get_sample_ddi();

    let result = generate_modmap(compiler, &cpp20modules_info, &ddi).unwrap();
    let expected = "-x c++-module\n-fmodule-output=cmake-build-debug/CMakeFiles/bar.dir/bar.pcm\n-fmodule-file=foo=CMakeFiles/foo.dir/foo.pcm\n";
    assert_eq!(result, expected);
}

#[test]
fn test_generate_modmap_msvc() {
    let compiler = Compiler::Msvc;
    let cpp20modules_info = get_sample_cpp20modules_info();
    let ddi = get_sample_ddi();

    let result = generate_modmap(compiler, &cpp20modules_info, &ddi).unwrap();
    let expected = "/module:output cmake-build-debug/CMakeFiles/bar.dir/bar.pcm\n/module:reference foo=CMakeFiles/foo.dir/foo.pcm\n";
    assert_eq!(result, expected);
}

#[test]
fn test_generate_modmap_missing_reference() {
    let compiler = Compiler::Clang;
    let cpp20modules_info = get_sample_cpp20modules_info_without_foo();
    let ddi = get_sample_ddi();

    let result = generate_modmap(compiler, &cpp20modules_info, &ddi);
    assert!(result.is_err());
}

#[test]
fn test_generate_modmap_missing_reference_names_module() {
    let err = generate_modmap(
        Compiler::Clang,
        &get_sample_cpp20modules_info_without_foo(),
        &get_sample_ddi(),
    )
    .unwrap_err();
    assert_eq!(err.logical_name, "foo");
    assert_eq!(err.message(), "Reference for required module 'foo' not found");
}

#[test]
fn test_generate_modmap_no_provide_rule() {
    // A descriptor whose only rule provides nothing resolves to empty text,
    // even though the rule has requires that could not be resolved.
    let ddi = Ddi {
        revision: 0,
        rules: vec![Rule {
            primary_output: "only.o".into(),
            provides: vec![],
            requires: vec![Require { logical_name: "unresolvable".into() }],
        }],
        version: 1,
    };
    let result = generate_modmap(Compiler::Clang, &get_sample_cpp20modules_info(), &ddi).unwrap();
    assert_eq!(result, "");
}

#[test]
fn test_generate_modmap_provided_module_absent_from_registry() {
    // The provided name is missing from the registry's modules: no
    // output-declaration lines are emitted, but the rule's requires are
    // still resolved.
    let mut references: StrMap<Reference> = StrMap::new();
    references.insert(
        "foo".to_string(),
        Reference { lookup_method: "by-name".into(), path: "CMakeFiles/foo.dir/foo.pcm".into() },
    );
    let info = Cpp20ModulesInfo {
        modules: StrMap::new(),
        references,
        usages: StrMap::new(),
    };
    let result = generate_modmap(Compiler::Clang, &info, &get_sample_ddi()).unwrap();
    assert_eq!(result, "-fmodule-file=foo=CMakeFiles/foo.dir/foo.pcm\n");
}

#[test]
fn test_generate_modmap_only_first_providing_rule() {
    // Rules before the first providing rule contribute nothing; rules after
    // it are ignored.
    let info = get_sample_cpp20modules_info();
    let ddi = Ddi {
        revision: 0,
        rules: vec![
            Rule { primary_output: "skip.o".into(), provides: vec![], requires: vec![] },
            Rule {
                primary_output: "CMakeFiles/bar.dir/bar.cpp.o".into(),
                provides: vec![Provide {
                    is_interface: true,
                    logical_name: "bar".into(),
                    source_path: "demo/bar.cpp".into(),
                }],
                requires: vec![],
            },
            Rule {
                primary_output: "ignored.o".into(),
                provides: vec![Provide {
                    is_interface: true,
                    logical_name: "bar".into(),
                    source_path: "demo/other.cpp".into(),
                }],
                requires: vec![Require { logical_name: "never-looked-up".into() }],
            },
        ],
        version: 1,
    };
    let result = generate_modmap(Compiler::Msvc, &info, &ddi).unwrap();
    assert_eq!(result, "/module:output cmake-build-debug/CMakeFiles/bar.dir/bar.pcm\n");
}
