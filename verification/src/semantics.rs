//! The mathematical model of parsing.
//!
//! Tokens are modelled as `Seq<char>`, option specifications as
//! [`SpecModel`], and the result of a parse as a map from option name to the
//! sequence of values collected for it. [`spec_parse`] walks the token list
//! exactly as the executable parser does: it discards the leading program
//! path, collects value tokens into the window of the current option,
//! closes that window (arity check, then duplicate check) whenever a flag
//! token arrives, and finally checks that every required option was seen.

use vstd::prelude::*;

use crate::config::OptionPolicy;

verus! {

/// The result mapping: option name to the values recorded for it.
pub type ConfigMap = Map<Seq<char>, Seq<Seq<char>>>;

/// Model of one option specification: the single-character abbreviation,
/// the long name, the description used for usage rendering, whether the
/// option must appear, and its arity policy.
pub struct SpecModel {
    pub abrev: char,
    pub name: Seq<char>,
    pub desc: Seq<char>,
    pub required: bool,
    pub policy: OptionPolicy,
}

/// Model of a parse failure.
pub enum ErrorModel {
    /// No specification carries the reserved name `(unnamed)`.
    MissingUnnamedSpec,
    /// A `--token` whose text after the dashes matches no option name.
    UnknownLongOption { token: Seq<char> },
    /// A character in a `-xyz` group that matches no abbreviation.
    UnknownAbbreviation { abbrev: char },
    /// A closed window whose value count violates the option's policy.
    ArityViolation { name: Seq<char>, actual: int, policy: OptionPolicy },
    /// A non-switch option whose window closed a second time.
    DuplicateOption { name: Seq<char> },
    /// A required option absent from the final mapping.
    MissingRequiredOption { name: Seq<char> },
}

/// The reserved name of the pseudo-option that collects the positional
/// tokens appearing before any flag.
pub open spec fn unnamed_name() -> Seq<char> {
    "(unnamed)"@
}

/// Whether a value count satisfies an arity policy.
pub open spec fn policy_allows(policy: OptionPolicy, count: int) -> bool {
    match policy {
        OptionPolicy::Exact(n) => count == n,
        OptionPolicy::AtLeast(n) => count >= n,
        OptionPolicy::AtMost(n) => count <= n,
    }
}

/// A switch is an option that takes exactly zero values; repeating a switch
/// is idempotent rather than an error.
pub open spec fn is_switch(policy: OptionPolicy) -> bool {
    policy == OptionPolicy::Exact(0usize)
}

/// A token that begins a new option: at least one character, the first a
/// dash.
pub open spec fn is_flag_token(t: Seq<char>) -> bool {
    t.len() >= 1 && t[0] == '-'
}

/// A token carrying a long option name: two leading dashes.
pub open spec fn is_long_token(t: Seq<char>) -> bool {
    t.len() >= 2 && t[0] == '-' && t[1] == '-'
}

/// The first specification with the given name, if any.
pub open spec fn spec_find_name(specs: Seq<SpecModel>, name: Seq<char>) -> Option<SpecModel>
    decreases specs.len(),
{
    if specs.len() == 0 {
        None
    } else if specs[0].name == name {
        Some(specs[0])
    } else {
        spec_find_name(specs.drop_first(), name)
    }
}

/// The first specification with the given abbreviation, if any.
pub open spec fn spec_find_abrev(specs: Seq<SpecModel>, abrev: char) -> Option<SpecModel>
    decreases specs.len(),
{
    if specs.len() == 0 {
        None
    } else if specs[0].abrev == abrev {
        Some(specs[0])
    } else {
        spec_find_abrev(specs.drop_first(), abrev)
    }
}

/// Records a closed window in the result mapping. A non-switch option whose
/// name is already present is a duplicate; a switch may be recorded again.
pub open spec fn spec_record(parsed: ConfigMap, sp: SpecModel, values: Seq<Seq<char>>) -> Result<
    ConfigMap,
    ErrorModel,
> {
    if parsed.dom().contains(sp.name) && !is_switch(sp.policy) {
        Err(ErrorModel::DuplicateOption { name: sp.name })
    } else {
        Ok(parsed.insert(sp.name, values))
    }
}

/// Closes a window: enforces the option's arity policy on the collected
/// values, then records them.
pub open spec fn spec_close(parsed: ConfigMap, sp: SpecModel, values: Seq<Seq<char>>) -> Result<
    ConfigMap,
    ErrorModel,
> {
    if !policy_allows(sp.policy, values.len() as int) {
        Err(ErrorModel::ArityViolation {
            name: sp.name,
            actual: values.len() as int,
            policy: sp.policy,
        })
    } else {
        spec_record(parsed, sp, values)
    }
}

/// Resolves an abbreviation group (the characters of a `-xyz` token after
/// the dash). Every character but the last is recorded immediately as a
/// zero-value occurrence; the last becomes the new current option. An empty
/// group leaves the current option as it was.
pub open spec fn spec_group(
    specs: Seq<SpecModel>,
    parsed: ConfigMap,
    cur: SpecModel,
    group: Seq<char>,
) -> Result<(SpecModel, ConfigMap), ErrorModel>
    decreases group.len(),
{
    if group.len() == 0 {
        Ok((cur, parsed))
    } else {
        match spec_find_abrev(specs, group[0]) {
            None => Err(ErrorModel::UnknownAbbreviation { abbrev: group[0] }),
            Some(sp) => {
                if group.len() == 1 {
                    Ok((sp, parsed))
                } else {
                    match spec_record(parsed, sp, Seq::empty()) {
                        Err(e) => Err(e),
                        Ok(p) => spec_group(specs, p, cur, group.drop_first()),
                    }
                }
            },
        }
    }
}

/// Walks the remaining tokens left to right. Non-flag tokens join the
/// window of the current option; a flag token closes that window and opens
/// a new one; the end of input closes the final window.
pub open spec fn spec_parse_tokens(
    specs: Seq<SpecModel>,
    tokens: Seq<Seq<char>>,
    cur: SpecModel,
    values: Seq<Seq<char>>,
    parsed: ConfigMap,
) -> Result<ConfigMap, ErrorModel>
    decreases tokens.len(),
{
    if tokens.len() == 0 {
        spec_close(parsed, cur, values)
    } else {
        let t = tokens[0];
        if is_flag_token(t) {
            match spec_close(parsed, cur, values) {
                Err(e) => Err(e),
                Ok(p) => {
                    if is_long_token(t) {
                        match spec_find_name(specs, t.skip(2)) {
                            None => Err(ErrorModel::UnknownLongOption { token: t.skip(2) }),
                            Some(sp) => spec_parse_tokens(
                                specs,
                                tokens.drop_first(),
                                sp,
                                Seq::empty(),
                                p,
                            ),
                        }
                    } else {
                        match spec_group(specs, p, cur, t.skip(1)) {
                            Err(e) => Err(e),
                            Ok(next) => spec_parse_tokens(
                                specs,
                                tokens.drop_first(),
                                next.0,
                                Seq::empty(),
                                next.1,
                            ),
                        }
                    }
                },
            }
        } else {
            spec_parse_tokens(specs, tokens.drop_first(), cur, values.push(t), parsed)
        }
    }
}

/// The name of the first required specification absent from the mapping, if
/// any.
pub open spec fn spec_missing_required(specs: Seq<SpecModel>, parsed: ConfigMap) -> Option<
    Seq<char>,
>
    decreases specs.len(),
{
    if specs.len() == 0 {
        None
    } else if specs[0].required && !parsed.dom().contains(specs[0].name) {
        Some(specs[0].name)
    } else {
        spec_missing_required(specs.drop_first(), parsed)
    }
}

/// The meaning of a parse: the first token (the program path) is discarded,
/// the rest are walked with the `(unnamed)` specification's window open
/// from the start, and on success every required option must be present.
pub open spec fn spec_parse(tokens: Seq<Seq<char>>, specs: Seq<SpecModel>) -> Result<
    ConfigMap,
    ErrorModel,
> {
    match spec_find_name(specs, unnamed_name()) {
        None => Err(ErrorModel::MissingUnnamedSpec),
        Some(un) => {
            let rest = if tokens.len() == 0 {
                tokens
            } else {
                tokens.skip(1)
            };
            match spec_parse_tokens(specs, rest, un, Seq::empty(), Map::empty()) {
                Err(e) => Err(e),
                Ok(m) => match spec_missing_required(specs, m) {
                    Some(n) => Err(ErrorModel::MissingRequiredOption { name: n }),
                    None => Ok(m),
                },
            }
        },
    }
}

/// One specification rendered for the usage string: abbreviation, name,
/// required marker and description.
pub open spec fn spec_render(sp: SpecModel) -> Seq<char> {
    "    -"@ + seq![sp.abrev] + ", --"@ + sp.name + " "@ + (if sp.required {
        "[required]"@
    } else {
        Seq::<char>::empty()
    }) + "\n        "@ + sp.desc + "\n\n"@
}

/// The renderings of every specification whose `required` flag has the
/// given value, concatenated in the callers' order.
pub open spec fn spec_usage_filtered(specs: Seq<SpecModel>, want_required: bool) -> Seq<char>
    decreases specs.len(),
{
    if specs.len() == 0 {
        Seq::empty()
    } else {
        spec_usage_filtered(specs.drop_last(), want_required) + (if specs.last().required
            == want_required {
            spec_render(specs.last())
        } else {
            Seq::<char>::empty()
        })
    }
}

/// The whole usage string: the required specifications (if requested)
/// followed by the unrequired ones (if requested).
pub open spec fn spec_usage(specs: Seq<SpecModel>, list_required: bool, list_unrequired: bool)
    -> Seq<char> {
    (if list_required {
        spec_usage_filtered(specs, true)
    } else {
        Seq::<char>::empty()
    }) + (if list_unrequired {
        spec_usage_filtered(specs, false)
    } else {
        Seq::<char>::empty()
    })
}

} // verus!
