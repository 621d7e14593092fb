//! General properties of the parser, stated over the specification
//! functions of [`crate::semantics`] and proved once and for all.

use vstd::prelude::*;

use crate::semantics::{
    is_flag_token, is_switch, policy_allows, spec_close, spec_find_name, spec_group,
    spec_missing_required, spec_parse, spec_parse_tokens, unnamed_name, ConfigMap, ErrorModel,
    SpecModel,
};

verus! {

/// Switches are idempotent: closing a zero-value window for a switch never
/// fails, and recording the same switch again leaves the mapping unchanged.
pub proof fn lemma_switch_idempotent(parsed: ConfigMap, sp: SpecModel)
    requires
        is_switch(sp.policy),
    ensures
        spec_close(parsed, sp, Seq::empty()) == Ok::<ConfigMap, ErrorModel>(
            parsed.insert(sp.name, Seq::empty()),
        ),
        spec_close(parsed.insert(sp.name, Seq::empty()), sp, Seq::empty()) == Ok::<
            ConfigMap,
            ErrorModel,
        >(parsed.insert(sp.name, Seq::empty())),
{
    assert(parsed.insert(sp.name, Seq::<Seq<char>>::empty()).insert(
        sp.name,
        Seq::<Seq<char>>::empty(),
    ) =~= parsed.insert(sp.name, Seq::<Seq<char>>::empty()));
}

proof fn lemma_find_name_found(specs: Seq<SpecModel>, name: Seq<char>)
    requires
        exists|i: int| 0 <= i < specs.len() && specs[i].name == name,
    ensures
        spec_find_name(specs, name) is Some,
    decreases specs.len(),
{
    let i = choose|i: int| 0 <= i < specs.len() && specs[i].name == name;
    if specs[0].name != name {
        assert(specs.drop_first()[i - 1] == specs[i]);
        lemma_find_name_found(specs.drop_first(), name);
    }
}

proof fn lemma_find_name_names(specs: Seq<SpecModel>, name: Seq<char>)
    ensures
        spec_find_name(specs, name) matches Some(sp) ==> sp.name == name,
    decreases specs.len(),
{
    if specs.len() > 0 && specs[0].name != name {
        lemma_find_name_names(specs.drop_first(), name);
    }
}

proof fn lemma_group_error_kinds(
    specs: Seq<SpecModel>,
    parsed: ConfigMap,
    cur: SpecModel,
    group: Seq<char>,
)
    ensures
        spec_group(specs, parsed, cur, group) matches Err(e) ==> (e is UnknownAbbreviation
            || e is DuplicateOption),
    decreases group.len(),
{
    if group.len() > 1 {
        match crate::semantics::spec_find_abrev(specs, group[0]) {
            Some(sp) => match crate::semantics::spec_record(parsed, sp, Seq::empty()) {
                Ok(p) => lemma_group_error_kinds(specs, p, cur, group.drop_first()),
                Err(_) => {},
            },
            None => {},
        }
    }
}

proof fn lemma_tokens_never_missing_unnamed(
    specs: Seq<SpecModel>,
    tokens: Seq<Seq<char>>,
    cur: SpecModel,
    values: Seq<Seq<char>>,
    parsed: ConfigMap,
)
    ensures
        spec_parse_tokens(specs, tokens, cur, values, parsed) matches Err(e) ==> !(
        e is MissingUnnamedSpec),
    decreases tokens.len(),
{
    if tokens.len() > 0 {
        let t = tokens[0];
        if is_flag_token(t) {
            match spec_close(parsed, cur, values) {
                Ok(p) => {
                    if crate::semantics::is_long_token(t) {
                        match spec_find_name(specs, t.skip(2)) {
                            Some(sp) => lemma_tokens_never_missing_unnamed(
                                specs,
                                tokens.drop_first(),
                                sp,
                                Seq::empty(),
                                p,
                            ),
                            None => {},
                        }
                    } else {
                        lemma_group_error_kinds(specs, p, cur, t.skip(1));
                        match spec_group(specs, p, cur, t.skip(1)) {
                            Ok(next) => lemma_tokens_never_missing_unnamed(
                                specs,
                                tokens.drop_first(),
                                next.0,
                                Seq::empty(),
                                next.1,
                            ),
                            Err(_) => {},
                        }
                    }
                },
                Err(_) => {},
            }
        } else {
            lemma_tokens_never_missing_unnamed(
                specs,
                tokens.drop_first(),
                cur,
                values.push(t),
                parsed,
            );
        }
    }
}

/// A specification list that contains exactly one `(unnamed)` entry never
/// makes a parse fail for want of one, whatever the tokens are.
pub proof fn lemma_unnamed_present_never_missing(tokens: Seq<Seq<char>>, specs: Seq<SpecModel>)
    requires
        exists|i: int|
            0 <= i < specs.len() && specs[i].name == unnamed_name() && (forall|j: int|
                0 <= j < specs.len() && specs[j].name == unnamed_name() ==> j == i),
    ensures
        spec_parse(tokens, specs) != Err::<ConfigMap, ErrorModel>(ErrorModel::MissingUnnamedSpec),
{
    assert(exists|i: int| 0 <= i < specs.len() && specs[i].name == unnamed_name());
    lemma_find_name_found(specs, unnamed_name());
    let un = spec_find_name(specs, unnamed_name()).unwrap();
    let rest = if tokens.len() == 0 {
        tokens
    } else {
        tokens.skip(1)
    };
    lemma_tokens_never_missing_unnamed(specs, rest, un, Seq::empty(), Map::empty());
}

proof fn lemma_no_flags_collect(
    specs: Seq<SpecModel>,
    tokens: Seq<Seq<char>>,
    cur: SpecModel,
    values: Seq<Seq<char>>,
    parsed: ConfigMap,
)
    requires
        forall|k: int| 0 <= k < tokens.len() ==> !is_flag_token(tokens[k]),
    ensures
        spec_parse_tokens(specs, tokens, cur, values, parsed) == spec_close(
            parsed,
            cur,
            values + tokens,
        ),
    decreases tokens.len(),
{
    if tokens.len() == 0 {
        assert(values + tokens =~= values);
    } else {
        lemma_no_flags_collect(specs, tokens.drop_first(), cur, values.push(tokens[0]), parsed);
        assert(values.push(tokens[0]) + tokens.drop_first() =~= values + tokens);
    }
}

/// When no token after the first starts with a dash, a successful parse
/// maps the `(unnamed)` collector to exactly those tokens, in their
/// original order.
pub proof fn lemma_positionals_land_unnamed(tokens: Seq<Seq<char>>, specs: Seq<SpecModel>)
    requires
        tokens.len() >= 1,
        forall|k: int| 1 <= k < tokens.len() ==> !is_flag_token(tokens[k]),
    ensures
        spec_parse(tokens, specs) matches Ok(m) ==> m.dom().contains(unnamed_name())
            && m[unnamed_name()] == tokens.skip(1),
{
    match spec_find_name(specs, unnamed_name()) {
        None => {},
        Some(un) => {
            lemma_find_name_names(specs, unnamed_name());
            let rest = tokens.skip(1);
            assert(forall|k: int| 0 <= k < rest.len() ==> !is_flag_token(rest[k]));
            lemma_no_flags_collect(specs, rest, un, Seq::empty(), Map::empty());
            assert(Seq::<Seq<char>>::empty() + rest =~= rest);
        },
    }
}

/// A long option whose name matches no specification is reported as
/// unknown, with the text after the dashes. The `(unnamed)` specification
/// must be present and allow an empty window, or that failure is reported
/// first.
pub proof fn lemma_unknown_long_option(prog: Seq<char>, name: Seq<char>, specs: Seq<SpecModel>)
    requires
        spec_find_name(specs, unnamed_name()) matches Some(un) && policy_allows(un.policy, 0),
        spec_find_name(specs, name) is None,
    ensures
        spec_parse(seq![prog, seq!['-', '-'] + name], specs) == Err::<ConfigMap, ErrorModel>(
            ErrorModel::UnknownLongOption { token: name },
        ),
{
    let tokens = seq![prog, seq!['-', '-'] + name];
    let t = seq!['-', '-'] + name;
    let rest = tokens.skip(1);
    assert(rest =~= seq![t]);
    assert(t.skip(2) =~= name);
    let un = spec_find_name(specs, unnamed_name()).unwrap();
    assert(spec_close(Map::empty(), un, Seq::empty()) == Ok::<ConfigMap, ErrorModel>(
        Map::<Seq<char>, Seq<Seq<char>>>::empty().insert(un.name, Seq::empty()),
    ));
}

/// Whether every key of the mapping is the name of some specification in
/// the list.
pub open spec fn keys_from_specs(specs: Seq<SpecModel>, m: ConfigMap) -> bool {
    forall|n: Seq<char>|
        m.dom().contains(n) ==> exists|i: int| 0 <= i < specs.len() && #[trigger] specs[i].name == n
}

proof fn lemma_find_name_in_specs(specs: Seq<SpecModel>, name: Seq<char>)
    ensures
        spec_find_name(specs, name) matches Some(sp) ==> exists|i: int|
            0 <= i < specs.len() && #[trigger] specs[i].name == sp.name,
    decreases specs.len(),
{
    if specs.len() > 0 && specs[0].name != name {
        lemma_find_name_in_specs(specs.drop_first(), name);
        match spec_find_name(specs, name) {
            Some(sp) => {
                let i = choose|i: int|
                    0 <= i < specs.drop_first().len() && #[trigger] specs.drop_first()[i].name
                        == sp.name;
                assert(specs[i + 1].name == sp.name);
            },
            None => {},
        }
    }
}

proof fn lemma_find_abrev_in_specs(specs: Seq<SpecModel>, abrev: char)
    ensures
        crate::semantics::spec_find_abrev(specs, abrev) matches Some(sp) ==> exists|i: int|
            0 <= i < specs.len() && #[trigger] specs[i].name == sp.name,
    decreases specs.len(),
{
    if specs.len() > 0 {
        if specs[0].abrev == abrev {
            assert(specs[0].name == specs[0].name);
        } else {
            lemma_find_abrev_in_specs(specs.drop_first(), abrev);
            match crate::semantics::spec_find_abrev(specs, abrev) {
                Some(sp) => {
                    let i = choose|i: int|
                        0 <= i < specs.drop_first().len() && #[trigger] specs.drop_first()[i].name
                            == sp.name;
                    assert(specs[i + 1].name == sp.name);
                },
                None => {},
            }
        }
    }
}

proof fn lemma_group_keys_from_specs(
    specs: Seq<SpecModel>,
    parsed: ConfigMap,
    cur: SpecModel,
    group: Seq<char>,
)
    requires
        keys_from_specs(specs, parsed),
        exists|i: int| 0 <= i < specs.len() && #[trigger] specs[i].name == cur.name,
    ensures
        spec_group(specs, parsed, cur, group) matches Ok(next) ==> keys_from_specs(specs, next.1)
            && exists|i: int| 0 <= i < specs.len() && #[trigger] specs[i].name == next.0.name,
    decreases group.len(),
{
    if group.len() > 0 {
        lemma_find_abrev_in_specs(specs, group[0]);
        match crate::semantics::spec_find_abrev(specs, group[0]) {
            Some(sp) => {
                if group.len() > 1 {
                    match crate::semantics::spec_record(parsed, sp, Seq::empty()) {
                        Ok(p) => {
                            lemma_group_keys_from_specs(specs, p, cur, group.drop_first());
                        },
                        Err(_) => {},
                    }
                }
            },
            None => {},
        }
    }
}

proof fn lemma_tokens_keys_from_specs(
    specs: Seq<SpecModel>,
    tokens: Seq<Seq<char>>,
    cur: SpecModel,
    values: Seq<Seq<char>>,
    parsed: ConfigMap,
)
    requires
        keys_from_specs(specs, parsed),
        exists|i: int| 0 <= i < specs.len() && #[trigger] specs[i].name == cur.name,
    ensures
        spec_parse_tokens(specs, tokens, cur, values, parsed) matches Ok(m) ==> keys_from_specs(
            specs,
            m,
        ),
    decreases tokens.len(),
{
    if tokens.len() > 0 {
        let t = tokens[0];
        if is_flag_token(t) {
            match spec_close(parsed, cur, values) {
                Ok(p) => {
                    if crate::semantics::is_long_token(t) {
                        lemma_find_name_in_specs(specs, t.skip(2));
                        match spec_find_name(specs, t.skip(2)) {
                            Some(sp) => lemma_tokens_keys_from_specs(
                                specs,
                                tokens.drop_first(),
                                sp,
                                Seq::empty(),
                                p,
                            ),
                            None => {},
                        }
                    } else {
                        lemma_group_keys_from_specs(specs, p, cur, t.skip(1));
                        match spec_group(specs, p, cur, t.skip(1)) {
                            Ok(next) => lemma_tokens_keys_from_specs(
                                specs,
                                tokens.drop_first(),
                                next.0,
                                Seq::empty(),
                                next.1,
                            ),
                            Err(_) => {},
                        }
                    }
                },
                Err(_) => {},
            }
        } else {
            lemma_tokens_keys_from_specs(specs, tokens.drop_first(), cur, values.push(t), parsed);
        }
    }
}

/// On success every key of the result mapping is the name of a
/// specification from the list the parse was given.
pub proof fn lemma_success_keys_from_specs(tokens: Seq<Seq<char>>, specs: Seq<SpecModel>)
    ensures
        spec_parse(tokens, specs) matches Ok(m) ==> keys_from_specs(specs, m),
{
    lemma_find_name_in_specs(specs, unnamed_name());
    match spec_find_name(specs, unnamed_name()) {
        None => {},
        Some(un) => {
            let rest = if tokens.len() == 0 {
                tokens
            } else {
                tokens.skip(1)
            };
            assert(keys_from_specs(specs, Map::empty())) by {
                assert(forall|n: Seq<char>|
                    !Map::<Seq<char>, Seq<Seq<char>>>::empty().dom().contains(n));
            }
            lemma_tokens_keys_from_specs(specs, rest, un, Seq::empty(), Map::empty());
        },
    }
}

proof fn lemma_missing_required_none(specs: Seq<SpecModel>, m: ConfigMap)
    requires
        spec_missing_required(specs, m) is None,
    ensures
        forall|i: int|
            0 <= i < specs.len() && specs[i].required ==> m.dom().contains(#[trigger] specs[i].name),
    decreases specs.len(),
{
    if specs.len() > 0 {
        lemma_missing_required_none(specs.drop_first(), m);
        assert forall|i: int|
            0 <= i < specs.len() && specs[i].required implies m.dom().contains(
            #[trigger] specs[i].name,
        ) by {
            if i > 0 {
                assert(specs.drop_first()[i - 1] == specs[i]);
            }
        }
    }
}

/// On success every required specification's name is a key of the result
/// mapping.
pub proof fn lemma_success_has_required(tokens: Seq<Seq<char>>, specs: Seq<SpecModel>)
    ensures
        spec_parse(tokens, specs) matches Ok(m) ==> forall|i: int|
            0 <= i < specs.len() && specs[i].required ==> m.dom().contains(
                #[trigger] specs[i].name,
            ),
{
    match spec_find_name(specs, unnamed_name()) {
        None => {},
        Some(un) => {
            let rest = if tokens.len() == 0 {
                tokens
            } else {
                tokens.skip(1)
            };
            match spec_parse_tokens(specs, rest, un, Seq::empty(), Map::empty()) {
                Err(_) => {},
                Ok(m) => {
                    if spec_missing_required(specs, m) is None {
                        lemma_missing_required_none(specs, m);
                    }
                },
            }
        },
    }
}

} // verus!
