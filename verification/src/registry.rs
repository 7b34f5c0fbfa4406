use vstd::prelude::*;
use crate::model::{
    Cpp20ModulesInfo, Cpp20ModulesInfoView, Ddi, Module, ModuleView, Reference, ReferenceView,
    RuleView,
};
use crate::strmap::StrMap;

verus! {

/// The module records one rule contributes: one entry per provide, keyed by
/// the logical name, later provides shadowing earlier ones.
pub open spec fn rule_modules(rule: RuleView) -> Map<Seq<char>, ModuleView>
    decreases rule.provides.len(),
{
    if rule.provides.len() == 0 {
        Map::empty()
    } else {
        let p = rule.provides.last();
        rule_modules(
            RuleView { provides: rule.provides.drop_last(), ..rule },
        ).insert(p.logical_name, ModuleView { bmi: rule.primary_output, is_private: !p.is_interface })
    }
}

/// The reference records one rule contributes: a `"by-name"` reference to the
/// rule's primary output, one entry per provide.
pub open spec fn rule_references(rule: RuleView) -> Map<Seq<char>, ReferenceView>
    decreases rule.provides.len(),
{
    if rule.provides.len() == 0 {
        Map::empty()
    } else {
        let p = rule.provides.last();
        rule_references(
            RuleView { provides: rule.provides.drop_last(), ..rule },
        ).insert(p.logical_name, ReferenceView { lookup_method: "by-name"@, path: rule.primary_output })
    }
}

/// The module map a whole descriptor folds to: rule contributions in order,
/// later rules shadowing earlier ones on a shared logical name.
pub open spec fn fold_modules(rules: Seq<RuleView>) -> Map<Seq<char>, ModuleView>
    decreases rules.len(),
{
    if rules.len() == 0 {
        Map::empty()
    } else {
        fold_modules(rules.drop_last()).union_prefer_right(rule_modules(rules.last()))
    }
}

/// The reference map a whole descriptor folds to.
pub open spec fn fold_references(rules: Seq<RuleView>) -> Map<Seq<char>, ReferenceView>
    decreases rules.len(),
{
    if rules.len() == 0 {
        Map::empty()
    } else {
        fold_references(rules.drop_last()).union_prefer_right(rule_references(rules.last()))
    }
}

/// The registry obtained by folding one incoming registry into a base one:
/// on a shared key the incoming entry wins; the base `usages` is kept.
pub open spec fn spec_merge(
    base: Cpp20ModulesInfoView,
    incoming: Cpp20ModulesInfoView,
) -> Cpp20ModulesInfoView {
    Cpp20ModulesInfoView {
        modules: base.modules.union_prefer_right(incoming.modules),
        references: base.references.union_prefer_right(incoming.references),
        usages: base.usages,
    }
}

/// Some provide of one of `rule`'s provides carries the name `k`.
pub open spec fn rule_provides_name(rule: RuleView, k: Seq<char>) -> bool {
    exists|j: int| 0 <= j < rule.provides.len() && rule.provides[j].logical_name == k
}

/// The records `rule` contributes at name `k` come from one of its provides:
/// paths are the rule's primary output, `is_private` negates that provide's
/// `is_interface`, and the lookup method is `"by-name"`.
pub open spec fn rule_entry_from_provide(rule: RuleView, k: Seq<char>) -> bool {
    exists|j: int|
        0 <= j < rule.provides.len() && rule.provides[j].logical_name == k && rule_modules(rule)[k]
            == (ModuleView { bmi: rule.primary_output, is_private: !rule.provides[j].is_interface })
            && rule_references(rule)[k] == (ReferenceView {
            lookup_method: "by-name"@,
            path: rule.primary_output,
        })
}

/// Some provide of some rule of the descriptor carries the name `k`.
pub open spec fn rules_provide_name(rules: Seq<RuleView>, k: Seq<char>) -> bool {
    exists|i: int| 0 <= i < rules.len() && rule_provides_name(#[trigger] rules[i], k)
}

/// The folded records at name `k` come from one rule and one of its provides,
/// as `rule_entry_from_provide` says of a single rule.
pub open spec fn fold_entry_from_provide(rules: Seq<RuleView>, k: Seq<char>) -> bool {
    exists|i: int, j: int|
        #![trigger rules[i].provides[j]]
        0 <= i < rules.len() && 0 <= j < rules[i].provides.len()
            && rules[i].provides[j].logical_name == k && fold_modules(rules)[k] == (ModuleView {
            bmi: rules[i].primary_output,
            is_private: !rules[i].provides[j].is_interface,
        }) && fold_references(rules)[k] == (ReferenceView {
            lookup_method: "by-name"@,
            path: rules[i].primary_output,
        })
}

/// Builds the registry fragment of one dependency descriptor: for every rule,
/// for every provide, a module record and a matching `"by-name"` reference
/// record keyed by the provide's logical name, both pointing at the rule's
/// primary output; `usages` stays empty.
pub fn transform_ddi_to_cpp20modules_info(ddi: &Ddi) -> (r: Cpp20ModulesInfo)
    ensures
        r@.modules == fold_modules(ddi@.rules),
        r@.references == fold_references(ddi@.rules),
        r@.usages == Map::<Seq<char>, Seq<String>>::empty(),
{
    let mut modules: StrMap<Module> = StrMap::new();
    let mut references: StrMap<Reference> = StrMap::new();

    let ghost rules_v = ddi@.rules;
    let mut i: usize = 0;
    while i < ddi.rules.len()
        invariant
            i <= ddi.rules@.len(),
            rules_v == ddi@.rules,
            rules_v.len() == ddi.rules@.len(),
            forall|n: int| 0 <= n < rules_v.len() ==> rules_v[n] == ddi.rules@[n]@,
            modules@ == fold_modules(rules_v.take(i as int)),
            references@ == fold_references(rules_v.take(i as int)),
        decreases ddi.rules@.len() - i,
    {
        let rule = &ddi.rules[i];
        let ghost rule_v = rules_v[i as int];
        let mut j: usize = 0;
        while j < rule.provides.len()
            invariant
                j <= rule.provides@.len(),
                rule_v == rules_v[i as int],
                0 <= i < rules_v.len(),
                rule_v == ddi.rules@[i as int]@,
                rule == ddi.rules@[i as int],
                rule_v.provides.len() == rule.provides@.len(),
                forall|n: int| 0 <= n < rule_v.provides.len() ==> rule_v.provides[n]
                    == rule.provides@[n]@,
                rule_v.primary_output == rule.primary_output@,
                modules@ == fold_modules(rules_v.take(i as int)).union_prefer_right(
                    rule_modules((RuleView { provides: rule_v.provides.take(j as int), ..rule_v })),
                ),
                references@ == fold_references(rules_v.take(i as int)).union_prefer_right(
                    rule_references(
                        (RuleView { provides: rule_v.provides.take(j as int), ..rule_v }),
                    ),
                ),
            decreases rule.provides@.len() - j,
        {
            let provide = &rule.provides[j];
            modules.insert(
                provide.logical_name.clone(),
                Module { bmi: rule.primary_output.clone(), is_private: !provide.is_interface },
            );
            references.insert(
                provide.logical_name.clone(),
                Reference {
                    lookup_method: "by-name".to_owned(),
                    path: rule.primary_output.clone(),
                },
            );
            proof {
                let pre = RuleView { provides: rule_v.provides.take(j as int), ..rule_v };
                let post = RuleView { provides: rule_v.provides.take(j + 1 as int), ..rule_v };
                assert(post.provides.drop_last() =~= pre.provides);
                assert(post.provides.last() == rule_v.provides[j as int]);
                assert(rule_modules(post) == rule_modules(pre).insert(
                    rule_v.provides[j as int].logical_name,
                    ModuleView {
                        bmi: rule_v.primary_output,
                        is_private: !rule_v.provides[j as int].is_interface,
                    },
                ));
                assert(modules@ =~= fold_modules(rules_v.take(i as int)).union_prefer_right(
                    rule_modules(post),
                ));
                assert(references@ =~= fold_references(rules_v.take(i as int)).union_prefer_right(
                    rule_references(post),
                ));
            }
            j = j + 1;
        }
        proof {
            assert(rule_v.provides.take(rule_v.provides.len() as int) =~= rule_v.provides);
            assert(RuleView { provides: rule_v.provides, ..rule_v } == rule_v);
            assert(rules_v.take(i + 1 as int).drop_last() =~= rules_v.take(i as int));
            assert(rules_v.take(i + 1 as int).last() == rule_v);
        }
        i = i + 1;
    }
    proof {
        assert(rules_v.take(rules_v.len() as int) =~= rules_v);
    }
    Cpp20ModulesInfo { modules, references, usages: StrMap::new() }
}

/// Folds `info2` into `info1`: every module and reference of `info2` is
/// added, overwriting an entry of `info1` with the same logical name;
/// entries only in `info1`, and `info1`'s `usages`, are kept unchanged.
pub fn merge_cpp20modules_info(info1: &mut Cpp20ModulesInfo, info2: Cpp20ModulesInfo)
    ensures
        final(info1)@ == spec_merge(old(info1)@, info2@),
{
    let Cpp20ModulesInfo { modules, references, usages: _ } = info2;
    info1.modules.extend_from(modules);
    info1.references.extend_from(references);
}

/// Per-rule form of fold correctness: one rule's contribution holds exactly
/// the names its provides carry, and each record comes from an owning
/// provide.
pub proof fn lemma_rule_maps_correct(rule: RuleView)
    ensures
        rule_modules(rule).dom() == rule_references(rule).dom(),
        forall|k: Seq<char>| #[trigger]
            rule_modules(rule).contains_key(k) <==> rule_provides_name(rule, k),
        forall|k: Seq<char>| #[trigger]
            rule_modules(rule).contains_key(k) ==> rule_entry_from_provide(rule, k),
    decreases rule.provides.len(),
{
    if rule.provides.len() == 0 {
        assert(rule_modules(rule).dom() =~= rule_references(rule).dom());
        assert forall|k: Seq<char>| !rule_provides_name(rule, k) by {}
    } else {
        let shorter = RuleView { provides: rule.provides.drop_last(), ..rule };
        let p = rule.provides.last();
        lemma_rule_maps_correct(shorter);
        assert(rule_modules(rule).dom() =~= rule_references(rule).dom());

        assert forall|k: Seq<char>| #[trigger]
            rule_modules(rule).contains_key(k) implies rule_entry_from_provide(rule, k) by {
            if p.logical_name == k {
                let j = rule.provides.len() - 1;
                assert(0 <= j < rule.provides.len() && rule.provides[j].logical_name == k
                    && rule_modules(rule)[k] == (ModuleView {
                    bmi: rule.primary_output,
                    is_private: !rule.provides[j].is_interface,
                }) && rule_references(rule)[k] == (ReferenceView {
                    lookup_method: "by-name"@,
                    path: rule.primary_output,
                }));
            } else {
                assert(rule_modules(shorter).contains_key(k));
                assert(rule_entry_from_provide(shorter, k));
                let j = choose|j: int|
                    0 <= j < shorter.provides.len() && shorter.provides[j].logical_name == k
                        && rule_modules(shorter)[k] == (ModuleView {
                        bmi: shorter.primary_output,
                        is_private: !shorter.provides[j].is_interface,
                    }) && rule_references(shorter)[k] == (ReferenceView {
                        lookup_method: "by-name"@,
                        path: shorter.primary_output,
                    });
                assert(rule.provides[j] == shorter.provides[j]);
                assert(0 <= j < rule.provides.len() && rule.provides[j].logical_name == k
                    && rule_modules(rule)[k] == (ModuleView {
                    bmi: rule.primary_output,
                    is_private: !rule.provides[j].is_interface,
                }) && rule_references(rule)[k] == (ReferenceView {
                    lookup_method: "by-name"@,
                    path: rule.primary_output,
                }));
            }
        }

        assert forall|k: Seq<char>| #[trigger]
            rule_modules(rule).contains_key(k) implies rule_provides_name(rule, k) by {
            if p.logical_name == k {
                assert(rule.provides[rule.provides.len() - 1].logical_name == k);
            } else {
                assert(rule_provides_name(shorter, k));
                let j = choose|j: int|
                    0 <= j < shorter.provides.len() && shorter.provides[j].logical_name == k;
                assert(rule.provides[j].logical_name == k);
            }
        }

        assert forall|k: Seq<char>|
            rule_provides_name(rule, k) implies #[trigger] rule_modules(rule).contains_key(k) by {
            let j = choose|j: int|
                0 <= j < rule.provides.len() && rule.provides[j].logical_name == k;
            if j < rule.provides.len() - 1 {
                assert(shorter.provides[j] == rule.provides[j]);
                assert(rule_provides_name(shorter, k));
                assert(rule_modules(shorter).contains_key(k));
            }
        }
    }
}

/// Fold correctness: the folded maps hold exactly the logical names some
/// provide of some rule carries; module and reference keys coincide; and the
/// record at a name comes from an owning rule and provide.
pub proof fn lemma_fold_correct(rules: Seq<RuleView>)
    ensures
        fold_modules(rules).dom() == fold_references(rules).dom(),
        forall|k: Seq<char>| #[trigger]
            fold_modules(rules).contains_key(k) <==> rules_provide_name(rules, k),
        forall|k: Seq<char>| #[trigger]
            fold_modules(rules).contains_key(k) ==> fold_entry_from_provide(rules, k),
    decreases rules.len(),
{
    if rules.len() == 0 {
        assert(fold_modules(rules).dom() =~= fold_references(rules).dom());
        assert forall|k: Seq<char>| !rules_provide_name(rules, k) by {}
    } else {
        let prefix = rules.drop_last();
        let last = rules.last();
        lemma_fold_correct(prefix);
        lemma_rule_maps_correct(last);
        assert(fold_modules(rules).dom() =~= fold_references(rules).dom());

        assert forall|k: Seq<char>| #[trigger]
            fold_modules(rules).contains_key(k) implies fold_entry_from_provide(rules, k) by {
            if rule_modules(last).contains_key(k) {
                assert(rule_entry_from_provide(last, k));
                let j = choose|j: int|
                    0 <= j < last.provides.len() && last.provides[j].logical_name == k
                        && rule_modules(last)[k] == (ModuleView {
                        bmi: last.primary_output,
                        is_private: !last.provides[j].is_interface,
                    }) && rule_references(last)[k] == (ReferenceView {
                        lookup_method: "by-name"@,
                        path: last.primary_output,
                    });
                let i = rules.len() - 1;
                assert(rules[i] == last);
                assert(0 <= i < rules.len() && 0 <= j < rules[i].provides.len()
                    && rules[i].provides[j].logical_name == k && fold_modules(rules)[k]
                    == (ModuleView {
                    bmi: rules[i].primary_output,
                    is_private: !rules[i].provides[j].is_interface,
                }) && fold_references(rules)[k] == (ReferenceView {
                    lookup_method: "by-name"@,
                    path: rules[i].primary_output,
                }));
            } else {
                assert(fold_modules(prefix).contains_key(k));
                assert(fold_entry_from_provide(prefix, k));
                let (i, j) = choose|i: int, j: int|
                    #![trigger prefix[i].provides[j]]
                    0 <= i < prefix.len() && 0 <= j < prefix[i].provides.len()
                        && prefix[i].provides[j].logical_name == k && fold_modules(prefix)[k]
                        == (ModuleView {
                        bmi: prefix[i].primary_output,
                        is_private: !prefix[i].provides[j].is_interface,
                    }) && fold_references(prefix)[k] == (ReferenceView {
                        lookup_method: "by-name"@,
                        path: prefix[i].primary_output,
                    });
                assert(rules[i] == prefix[i]);
                assert(!rule_references(last).contains_key(k));
                assert(0 <= i < rules.len() && 0 <= j < rules[i].provides.len()
                    && rules[i].provides[j].logical_name == k && fold_modules(rules)[k]
                    == (ModuleView {
                    bmi: rules[i].primary_output,
                    is_private: !rules[i].provides[j].is_interface,
                }) && fold_references(rules)[k] == (ReferenceView {
                    lookup_method: "by-name"@,
                    path: rules[i].primary_output,
                }));
            }
        }

        assert forall|k: Seq<char>| #[trigger]
            fold_modules(rules).contains_key(k) implies rules_provide_name(rules, k) by {
            if rule_modules(last).contains_key(k) {
                let i = rules.len() - 1;
                assert(rules[i] == last);
                assert(rule_provides_name(rules[i], k));
            } else {
                assert(rules_provide_name(prefix, k));
                let i = choose|i: int|
                    0 <= i < prefix.len() && rule_provides_name(#[trigger] prefix[i], k);
                assert(rules[i] == prefix[i]);
                assert(rule_provides_name(rules[i], k));
            }
        }

        assert forall|k: Seq<char>|
            rules_provide_name(rules, k) implies #[trigger] fold_modules(rules).contains_key(
            k,
        ) by {
            let i = choose|i: int| 0 <= i < rules.len() && rule_provides_name(#[trigger] rules[i], k);
            if i < rules.len() - 1 {
                assert(prefix[i] == rules[i]);
                assert(rules_provide_name(prefix, k));
                assert(fold_modules(prefix).contains_key(k));
            } else {
                assert(rule_modules(last).contains_key(k));
            }
        }
    }
}

/// Merge precedence: when both operands bind a logical name, the merged
/// registry resolves it to the right (later) operand's entry — merging the
/// other way round resolves it to the other operand's entry. Entries bound
/// on one side only are kept as they are.
pub proof fn lemma_merge_precedence(
    a: Cpp20ModulesInfoView,
    b: Cpp20ModulesInfoView,
    k: Seq<char>,
)
    ensures
        b.references.contains_key(k) ==> spec_merge(a, b).references[k] == b.references[k],
        b.modules.contains_key(k) ==> spec_merge(a, b).modules[k] == b.modules[k],
        a.references.contains_key(k) ==> spec_merge(b, a).references[k] == a.references[k],
        a.modules.contains_key(k) ==> spec_merge(b, a).modules[k] == a.modules[k],
        a.references.contains_key(k) && !b.references.contains_key(k) ==> spec_merge(
            a,
            b,
        ).references[k] == a.references[k],
        a.modules.contains_key(k) && !b.modules.contains_key(k) ==> spec_merge(a, b).modules[k]
            == a.modules[k],
        spec_merge(a, b).references.contains_key(k) <==> a.references.contains_key(k)
            || b.references.contains_key(k),
        spec_merge(a, b).modules.contains_key(k) <==> a.modules.contains_key(k)
            || b.modules.contains_key(k),
{
}

/// Merging is associative: folding fragments into an accumulator one at a
/// time, in order, ends in the same registry as merging them in one batch in
/// that order. It is not commutative — operand order decides which entry
/// wins, as `lemma_merge_precedence` states.
pub proof fn lemma_merge_associative(
    a: Cpp20ModulesInfoView,
    b: Cpp20ModulesInfoView,
    c: Cpp20ModulesInfoView,
)
    ensures
        spec_merge(spec_merge(a, b), c) == spec_merge(a, spec_merge(b, c)),
{
    assert(spec_merge(spec_merge(a, b), c).modules =~= spec_merge(a, spec_merge(b, c)).modules);
    assert(spec_merge(spec_merge(a, b), c).references =~= spec_merge(
        a,
        spec_merge(b, c),
    ).references);
}

/// Empty input: a descriptor with no rules, or none of whose rules provides
/// anything, folds to empty module and reference maps.
pub proof fn lemma_fold_empty(rules: Seq<RuleView>)
    requires
        forall|i: int| 0 <= i < rules.len() ==> (#[trigger] rules[i]).provides.len() == 0,
    ensures
        fold_modules(rules) == Map::<Seq<char>, ModuleView>::empty(),
        fold_references(rules) == Map::<Seq<char>, ReferenceView>::empty(),
    decreases rules.len(),
{
    if rules.len() > 0 {
        let prefix = rules.drop_last();
        assert(forall|i: int| 0 <= i < prefix.len() ==> prefix[i] == rules[i]);
        lemma_fold_empty(prefix);
        assert(rules[rules.len() - 1].provides.len() == 0);
        assert(fold_modules(rules) =~= Map::<Seq<char>, ModuleView>::empty());
        assert(fold_references(rules) =~= Map::<Seq<char>, ReferenceView>::empty());
    }
}

} // verus!
