use vstd::prelude::*;
use vstd::string::StringExecFns;
use crate::compiler::Compiler;
use crate::model::{Cpp20ModulesInfo, Cpp20ModulesInfoView, Ddi, ModuleView, ReferenceView, RequireView, RuleView};

verus! {

/// The one failure the resolver raises: a required module's logical name has
/// no entry in the combined registry's references.
#[derive(Debug)]
pub struct ResolveError {
    pub logical_name: String,
}

impl ResolveError {
    /// A diagnostic line naming the unresolved logical name.
    pub fn message(&self) -> (r: String)
        ensures
            r@ == "Reference for required module '"@ + self.logical_name@ + "' not found"@,
    {
        let mut m = "Reference for required module '".to_owned();
        m.append(self.logical_name.as_str());
        m.append("' not found");
        m
    }
}

/// The output-declaration lines for the module a rule provides: for
/// Clang/Gcc a module-translation-unit flag line and an output-path flag
/// line, for Msvc a single output line — or nothing when the provided name
/// is absent from the registry's modules.
pub open spec fn output_decl_lines(
    compiler: Compiler,
    modules: Map<Seq<char>, ModuleView>,
    name: Seq<char>,
) -> Seq<char> {
    if modules.contains_key(name) {
        match compiler {
            Compiler::Clang | Compiler::Gcc => "-x c++-module\n"@ + "-fmodule-output="@
                + modules[name].bmi + "\n"@,
            Compiler::Msvc => "/module:output "@ + modules[name].bmi + "\n"@,
        }
    } else {
        Seq::empty()
    }
}

/// The line mapping one required module name to its artifact path, in the
/// dialect's syntax.
pub open spec fn require_line(compiler: Compiler, name: Seq<char>, path: Seq<char>) -> Seq<char> {
    match compiler {
        Compiler::Clang | Compiler::Gcc => "-fmodule-file="@ + name + "="@ + path + "\n"@,
        Compiler::Msvc => "/module:reference "@ + name + "="@ + path + "\n"@,
    }
}

/// The lines for a sequence of requires, one per require in order, each
/// resolved against the registry's references — or, when some require's name
/// is unbound there, the first such name as the error.
pub open spec fn require_lines(
    compiler: Compiler,
    references: Map<Seq<char>, ReferenceView>,
    reqs: Seq<RequireView>,
) -> Result<Seq<char>, Seq<char>>
    decreases reqs.len(),
{
    if reqs.len() == 0 {
        Ok(Seq::empty())
    } else {
        match require_lines(compiler, references, reqs.drop_last()) {
            Ok(text) => {
                let name = reqs.last().logical_name;
                if references.contains_key(name) {
                    Ok(text + require_line(compiler, name, references[name].path))
                } else {
                    Err(name)
                }
            },
            Err(name) => Err(name),
        }
    }
}

/// The argument text a descriptor resolves to: the first rule with a
/// non-empty `provides` is the one processed — its output-declaration lines,
/// then one line per require in order; rules before it contribute nothing,
/// rules after it are ignored; with no providing rule the text is empty.
pub open spec fn resolve_ddi(
    compiler: Compiler,
    info: Cpp20ModulesInfoView,
    rules: Seq<RuleView>,
) -> Result<Seq<char>, Seq<char>>
    decreases rules.len(),
{
    if rules.len() == 0 {
        Ok(Seq::empty())
    } else if rules[0].provides.len() == 0 {
        resolve_ddi(compiler, info, rules.drop_first())
    } else {
        let rule = rules[0];
        match require_lines(compiler, info.references, rule.requires) {
            Ok(text) => Ok(
                output_decl_lines(compiler, info.modules, rule.provides[0].logical_name) + text,
            ),
            Err(name) => Err(name),
        }
    }
}

/// Rules without provides contribute nothing: resolution of a rule list is
/// resolution of the list with a non-providing prefix dropped.
pub proof fn lemma_resolve_skip(
    compiler: Compiler,
    info: Cpp20ModulesInfoView,
    rules: Seq<RuleView>,
    i: int,
)
    requires
        0 <= i <= rules.len(),
        forall|m: int| 0 <= m < i ==> (#[trigger] rules[m]).provides.len() == 0,
    ensures
        resolve_ddi(compiler, info, rules) == resolve_ddi(compiler, info, rules.skip(i)),
    decreases i,
{
    if i > 0 {
        lemma_resolve_skip(compiler, info, rules, i - 1);
        assert(rules.skip(i - 1)[0] == rules[i - 1]);
        assert(rules.skip(i - 1).drop_first() =~= rules.skip(i));
    } else {
        assert(rules.skip(0) =~= rules);
    }
}

/// Once some require of a prefix is unresolved, the whole sequence resolves
/// to that same error.
pub proof fn lemma_require_lines_err(
    compiler: Compiler,
    references: Map<Seq<char>, ReferenceView>,
    reqs: Seq<RequireView>,
    m: int,
)
    requires
        0 <= m <= reqs.len(),
        (require_lines(compiler, references, reqs.take(m)) is Err),
    ensures
        require_lines(compiler, references, reqs) == require_lines(
            compiler,
            references,
            reqs.take(m),
        ),
    decreases reqs.len() - m,
{
    if m == reqs.len() {
        assert(reqs.take(m) =~= reqs);
    } else {
        assert(reqs.take(m + 1).drop_last() =~= reqs.take(m));
        lemma_require_lines_err(compiler, references, reqs, m + 1);
    }
}

/// No-provide input: a descriptor none of whose rules provides a module
/// resolves to empty argument text, whatever each rule requires.
pub proof fn lemma_resolve_no_provides(
    compiler: Compiler,
    info: Cpp20ModulesInfoView,
    rules: Seq<RuleView>,
)
    requires
        forall|m: int| 0 <= m < rules.len() ==> (#[trigger] rules[m]).provides.len() == 0,
    ensures
        resolve_ddi(compiler, info, rules) == Ok::<Seq<char>, Seq<char>>(Seq::empty()),
{
    lemma_resolve_skip(compiler, info, rules, rules.len() as int);
    assert(rules.skip(rules.len() as int).len() == 0);
}

/// Resolves one descriptor against the combined registry for the given
/// dialect, producing the modmap text `resolve_ddi` describes: the first
/// providing rule's output-declaration lines, then one mapping line per
/// require of that rule, in descriptor order. Fails exactly when one of
/// those requires names a module absent from the registry's references, and
/// then names the first such module; no text is produced in that case.
#[verifier::loop_isolation(false)]
#[verifier::rlimit(60)]
pub fn generate_modmap(compiler: Compiler, cpp20modules_info: &Cpp20ModulesInfo, ddi: &Ddi) -> (r:
    Result<String, ResolveError>)
    ensures
        (r is Ok) == (resolve_ddi(compiler, cpp20modules_info@, ddi@.rules) is Ok),
        r is Ok ==> (r->Ok_0)@ == resolve_ddi(compiler, cpp20modules_info@, ddi@.rules)->Ok_0,
        r is Err ==> (r->Err_0).logical_name@ == resolve_ddi(
            compiler,
            cpp20modules_info@,
            ddi@.rules,
        )->Err_0,
{
    let ghost rules_v = ddi@.rules;
    let ghost info_v = cpp20modules_info@;

    let n = ddi.rules.len();
    let mut i: usize = 0;
    while i < n && ddi.rules[i].provides.len() == 0
        invariant
            n == ddi.rules@.len(),
            rules_v == ddi@.rules,
            rules_v.len() == n,
            forall|m: int| 0 <= m < rules_v.len() ==> rules_v[m] == ddi.rules@[m]@,
            i <= n,
            forall|m: int| 0 <= m < i ==> (#[trigger] rules_v[m]).provides.len() == 0,
        decreases n - i,
    {
        i = i + 1;
    }
    proof {
        lemma_resolve_skip(compiler, info_v, rules_v, i as int);
    }
    if i == n {
        proof {
            assert(rules_v.skip(i as int).len() == 0);
        }
        return Ok(String::new());
    }

    let rule = &ddi.rules[i];
    let ghost rule_v = rules_v[i as int];
    proof {
        assert(rules_v.skip(i as int)[0] == rule_v);
        assert(rule_v.provides.len() > 0);
    }

    let mut content = String::new();
    let provide = &rule.provides[0];
    let ghost name_v = rule_v.provides[0].logical_name;
    let ghost decl_v = output_decl_lines(compiler, info_v.modules, name_v);
    proof {
        assert(provide@ == rule_v.provides[0]);
    }

    match cpp20modules_info.modules.get(&provide.logical_name) {
        Some(module) => {
            match compiler {
                Compiler::Clang | Compiler::Gcc => {
                    content.append("-x c++-module\n");
                    content.append("-fmodule-output=");
                    content.append(module.bmi.as_str());
                    content.append("\n");
                },
                Compiler::Msvc => {
                    content.append("/module:output ");
                    content.append(module.bmi.as_str());
                    content.append("\n");
                },
            }
            proof {
                assert(content@ =~= decl_v);
            }
        },
        None => {
            proof {
                assert(content@ =~= decl_v);
            }
        },
    }

    let ghost reqs_v = rule_v.requires;
    let reqs_len = rule.requires.len();
    let mut j: usize = 0;
    while j < reqs_len
        invariant
            reqs_len == rule.requires@.len(),
            rule_v == rules_v[i as int],
            0 <= i < rules_v.len(),
            rule == ddi.rules@[i as int],
            rule_v == ddi.rules@[i as int]@,
            reqs_v == rule_v.requires,
            reqs_v.len() == reqs_len,
            forall|m: int| 0 <= m < reqs_v.len() ==> reqs_v[m] == rule.requires@[m]@,
            info_v == cpp20modules_info@,
            j <= reqs_len,
            (require_lines(compiler, info_v.references, reqs_v.take(j as int)) is Ok),
            content@ == decl_v + require_lines(
                compiler,
                info_v.references,
                reqs_v.take(j as int),
            )->Ok_0,
        decreases reqs_len - j,
    {
        let require = &rule.requires[j];
        proof {
            assert(require@ == reqs_v[j as int]);
        }
        match cpp20modules_info.references.get(&require.logical_name) {
            Some(reference) => {
                match compiler {
                    Compiler::Clang | Compiler::Gcc => {
                        content.append("-fmodule-file=");
                        content.append(require.logical_name.as_str());
                        content.append("=");
                        content.append(reference.path.as_str());
                        content.append("\n");
                    },
                    Compiler::Msvc => {
                        content.append("/module:reference ");
                        content.append(require.logical_name.as_str());
                        content.append("=");
                        content.append(reference.path.as_str());
                        content.append("\n");
                    },
                }
                proof {
                    assert(reqs_v.take(j + 1 as int).drop_last() =~= reqs_v.take(j as int));
                    assert(reqs_v.take(j + 1 as int).last() == reqs_v[j as int]);
                    assert(content@ =~= decl_v + require_lines(
                        compiler,
                        info_v.references,
                        reqs_v.take(j + 1 as int),
                    )->Ok_0);
                }
            },
            None => {
                proof {
                    assert(reqs_v.take(j + 1 as int).drop_last() =~= reqs_v.take(j as int));
                    assert(reqs_v.take(j + 1 as int).last() == reqs_v[j as int]);
                    assert(require_lines(compiler, info_v.references, reqs_v.take(j + 1 as int))
                        == Err::<Seq<char>, Seq<char>>(reqs_v[j as int].logical_name));
                    lemma_require_lines_err(compiler, info_v.references, reqs_v, j + 1 as int);
                }
                return Err(ResolveError { logical_name: require.logical_name.clone() });
            },
        }
        j = j + 1;
    }
    proof {
        assert(reqs_v.take(reqs_len as int) =~= reqs_v);
    }
    Ok(content)
}

} // verus!
