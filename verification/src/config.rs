//! Option specifications and the argument parser.
//!
//! [`OptionSpec`] declares one option; [`Config::parse`] walks a token list
//! against a set of such declarations and produces a [`Config`] (a mapping
//! from option name to the values supplied for it) or a [`ParseError`].
//! Every executable function here is proved to return exactly what the
//! specification functions in [`crate::semantics`] describe.

use vstd::prelude::*;

use crate::semantics::{
    policy_allows, spec_find_abrev, spec_find_name, spec_group, spec_missing_required, spec_parse,
    spec_parse_tokens, spec_record, spec_render, spec_usage, spec_usage_filtered, unnamed_name,
    ConfigMap, ErrorModel, SpecModel,
};
use vstd::string::{StrSliceExecFns, StringExecFns};

verus! {

/// Determines how the number of values supplied for an option is checked.
/// `Exact(0)` denotes a switch: presence alone is the signal.
#[derive(Clone, Copy, Debug, PartialEq, Eq, Structural)]
pub enum OptionPolicy {
    /// The number of supplied values must equal the bound.
    Exact(usize),
    /// The number of supplied values must be at least the bound.
    AtLeast(usize),
    /// The number of supplied values must be at most the bound.
    AtMost(usize),
}

/// Declares an option that can be given on the command line.
///
/// The reserved name `(unnamed)` designates the pseudo-option that collects
/// the positional tokens appearing before any flag; every parse requires
/// exactly one such specification. Names and abbreviations are expected to
/// be unique across a specification list; on duplicates the first matching
/// specification wins.
pub struct OptionSpec {
    abrev: char,
    name: String,
    desc: String,
    required: bool,
    policy: OptionPolicy,
}

impl View for OptionSpec {
    type V = SpecModel;

    closed spec fn view(&self) -> SpecModel {
        SpecModel {
            abrev: self.abrev,
            name: self.name@,
            desc: self.desc@,
            required: self.required,
            policy: self.policy,
        }
    }
}

impl DeepView for OptionSpec {
    type V = SpecModel;

    open spec fn deep_view(&self) -> SpecModel {
        self.view()
    }
}

impl OptionSpec {
    /// Builds a specification from the abbreviation, the long name, the
    /// description shown in usage strings, whether the option is required,
    /// and its arity policy.
    pub fn new(abrev: char, name: &str, desc: &str, required: bool, policy: OptionPolicy) -> (r:
        Self)
        ensures
            r@ == (SpecModel { abrev, name: name@, desc: desc@, required, policy }),
    {
        Self { abrev, name: name.to_owned(), desc: desc.to_owned(), required, policy }
    }

    /// Checks the values collected for this option against its arity
    /// policy, passing them through unchanged on success.
    pub fn enforce(&self, values: Vec<String>) -> (r: Result<Vec<String>, ParseError>)
        ensures
            match r {
                Ok(v) => policy_allows(self@.policy, values.deep_view().len() as int) && v
                    == values,
                Err(e) => !policy_allows(self@.policy, values.deep_view().len() as int) && e@
                    == (ErrorModel::ArityViolation {
                    name: self@.name,
                    actual: values.deep_view().len() as int,
                    policy: self@.policy,
                }),
            },
    {
        let ok = match self.policy {
            OptionPolicy::Exact(n) => values.len() == n,
            OptionPolicy::AtLeast(n) => values.len() >= n,
            OptionPolicy::AtMost(n) => values.len() <= n,
        };
        if ok {
            Ok(values)
        } else {
            Err(
                ParseError::ArityViolation {
                    name: self.name.clone(),
                    actual: values.len(),
                    policy: self.policy,
                },
            )
        }
    }
}

/// A parse failure; construction of the result mapping stops at the first
/// one. Rendering a failure as text is left to the caller.
#[derive(Debug)]
pub enum ParseError {
    /// No specification carries the reserved name `(unnamed)`.
    MissingUnnamedSpec,
    /// A `--token` whose text after the dashes matches no option name.
    UnknownLongOption { token: String },
    /// A character in a `-xyz` group that matches no abbreviation.
    UnknownAbbreviation { abbrev: char },
    /// A closed window whose value count violates the option's policy.
    ArityViolation { name: String, actual: usize, policy: OptionPolicy },
    /// A non-switch option whose window closed a second time.
    DuplicateOption { name: String },
    /// A required option absent from the final mapping.
    MissingRequiredOption { name: String },
}

/// Pairwise-distinct option names across the recorded entries.
pub open spec fn unique_names(s: Seq<(String, Vec<String>)>) -> bool {
    forall|a: int, b: int| 0 <= a < b < s.len() ==> s[a].0@ != s[b].0@
}

/// The mapping that a sequence of recorded entries denotes: later entries
/// win, though the parser never records two entries under one name.
pub open spec fn entries_map(s: Seq<(String, Vec<String>)>) -> ConfigMap
    decreases s.len(),
{
    if s.len() == 0 {
        Map::empty()
    } else {
        entries_map(s.drop_last()).insert(s.last().0@, s.last().1.deep_view())
    }
}

proof fn lemma_entries_map_index(s: Seq<(String, Vec<String>)>, i: int)
    requires
        unique_names(s),
        0 <= i < s.len(),
    ensures
        entries_map(s).dom().contains(s[i].0@),
        entries_map(s)[s[i].0@] == s[i].1.deep_view(),
    decreases s.len(),
{
    if i < s.len() - 1 {
        lemma_entries_map_index(s.drop_last(), i);
    }
}

proof fn lemma_entries_map_absent(s: Seq<(String, Vec<String>)>, name: Seq<char>)
    requires
        forall|k: int| 0 <= k < s.len() ==> s[k].0@ != name,
    ensures
        !entries_map(s).dom().contains(name),
    decreases s.len(),
{
    if s.len() > 0 {
        lemma_entries_map_absent(s.drop_last(), name);
    }
}

proof fn lemma_entries_map_update(s: Seq<(String, Vec<String>)>, i: int, e: (String, Vec<String>))
    requires
        unique_names(s),
        0 <= i < s.len(),
        e.0@ == s[i].0@,
    ensures
        entries_map(s.update(i, e)) == entries_map(s).insert(e.0@, e.1.deep_view()),
    decreases s.len(),
{
    let u = s.update(i, e);
    if i == s.len() - 1 {
        assert(u.drop_last() =~= s.drop_last());
        assert(entries_map(u) =~= entries_map(s).insert(e.0@, e.1.deep_view()));
    } else {
        assert(u.drop_last() =~= s.drop_last().update(i, e));
        assert(u.last() == s.last());
        lemma_entries_map_update(s.drop_last(), i, e);
        assert(s[i].0@ != s.last().0@);
        assert(entries_map(u) =~= entries_map(s).insert(e.0@, e.1.deep_view()));
    }
}

/// The index of the entry recorded under the given name, if any.
fn find_entry(parsed: &Vec<(String, Vec<String>)>, name: &String) -> (r: Option<usize>)
    ensures
        match r {
            Some(i) => i < parsed.len() && parsed@[i as int].0@ == name@,
            None => forall|k: int| 0 <= k < parsed@.len() ==> parsed@[k].0@ != name@,
        },
{
    let mut i: usize = 0;
    while i < parsed.len()
        invariant
            i <= parsed.len(),
            forall|k: int| 0 <= k < i ==> parsed@[k].0@ != name@,
        decreases parsed.len() - i,
    {
        if parsed[i].0 == *name {
            return Some(i);
        }
        i += 1;
    }
    None
}

/// A parsed configuration: each option that occurred maps to the values
/// supplied for it, in the order encountered. A switch that occurred maps
/// to an empty value list; a name absent from the mapping was not supplied.
pub struct Config {
    parsed: Vec<(String, Vec<String>)>,
}

impl Config {
    #[verifier::type_invariant]
    closed spec fn wf(self) -> bool {
        unique_names(self.parsed@)
    }

    /// Records a closed window: refuses a second occurrence of a non-switch
    /// option, and otherwise stores the values under the option's name.
    fn insert_non_duplicate(
        parsed: &mut Vec<(String, Vec<String>)>,
        spec: &OptionSpec,
        values: Vec<String>,
    ) -> (r: Result<(), ParseError>)
        requires
            unique_names(old(parsed)@),
        ensures
            unique_names(final(parsed)@),
            match r {
                Ok(_) => spec_record(entries_map(old(parsed)@), spec@, values.deep_view())
                    == Ok::<ConfigMap, ErrorModel>(entries_map(final(parsed)@)),
                Err(e) => spec_record(entries_map(old(parsed)@), spec@, values.deep_view())
                    == Err::<ConfigMap, ErrorModel>(e@) && final(parsed)@ == old(parsed)@,
            },
    {
        match find_entry(parsed, &spec.name) {
            Some(i) => {
                proof {
                    lemma_entries_map_index(parsed@, i as int);
                }
                let switch = match spec.policy {
                    OptionPolicy::Exact(n) => n == 0,
                    _ => false,
                };
                if switch {
                    let entry = (spec.name.clone(), values);
                    proof {
                        lemma_entries_map_update(parsed@, i as int, entry);
                    }
                    parsed[i] = entry;
                    Ok(())
                } else {
                    Err(ParseError::DuplicateOption { name: spec.name.clone() })
                }
            },
            None => {
                proof {
                    lemma_entries_map_absent(parsed@, spec@.name);
                }
                parsed.push((spec.name.clone(), values));
                proof {
                    assert(parsed@.drop_last() =~= old(parsed)@);
                }
                Ok(())
            },
        }
    }

    /// Resolves one abbreviation-group token (a single dash followed by
    /// zero or more abbreviation characters). Every character but the last
    /// is recorded as a zero-value occurrence; the index of the
    /// specification named by the last character is returned and its
    /// window is the one now open. A bare dash leaves the current option
    /// in place.
    #[verifier::loop_isolation(false)]
    fn process_group(
        specs: &[OptionSpec],
        parsed: &mut Vec<(String, Vec<String>)>,
        cur: usize,
        token: &String,
    ) -> (r: Result<usize, ParseError>)
        requires
            cur < specs.len(),
            unique_names(old(parsed)@),
            token@.len() >= 1,
        ensures
            unique_names(final(parsed)@),
            match r {
                Ok(ncur) => ncur < specs.len() && spec_group(
                    specs.deep_view(),
                    entries_map(old(parsed)@),
                    specs.deep_view()[cur as int],
                    token@.skip(1),
                ) == Ok::<(SpecModel, ConfigMap), ErrorModel>(
                    (specs.deep_view()[ncur as int], entries_map(final(parsed)@)),
                ),
                Err(e) => spec_group(
                    specs.deep_view(),
                    entries_map(old(parsed)@),
                    specs.deep_view()[cur as int],
                    token@.skip(1),
                ) == Err::<(SpecModel, ConfigMap), ErrorModel>(e@),
            },
    {
        let ghost sm = specs.deep_view();
        let ghost curm = sm[cur as int];
        let ghost gchars = token@.skip(1);
        let ghost total = spec_group(sm, entries_map(parsed@), curm, gchars);

        let tlen = token.as_str().unicode_len();
        if tlen == 1 {
            proof {
                assert(gchars.len() == 0);
            }
            return Ok(cur);
        }

        let mut j: usize = 1;
        proof {
            assert(gchars.skip(0) =~= gchars);
        }
        while j + 1 < tlen
            invariant
                1 <= j <= tlen - 1,
                unique_names(parsed@),
                spec_group(sm, entries_map(parsed@), curm, gchars.skip(j - 1)) == total,
            decreases tlen - j,
        {
            proof {
                assert(gchars.skip(j - 1)[0] == token@[j as int]);
            }
            let c = token.as_str().get_char(j);
            match find_abrev(specs, c) {
                None => {
                    return Err(ParseError::UnknownAbbreviation { abbrev: c });
                },
                Some(k) => {
                    let empty_vals: Vec<String> = Vec::new();
                    proof {
                        assert(empty_vals.deep_view() =~= Seq::<Seq<char>>::empty());
                    }
                    match Self::insert_non_duplicate(parsed, &specs[k], empty_vals) {
                        Ok(_) => {},
                        Err(e) => {
                            return Err(e);
                        },
                    }
                    proof {
                        assert(gchars.skip(j - 1).drop_first() =~= gchars.skip(j as int));
                    }
                    j += 1;
                },
            }
        }

        // the last character of the group opens the new window
        proof {
            assert(gchars.skip(j - 1)[0] == token@[j as int]);
            assert(gchars.skip(j - 1).len() == 1);
        }
        let c = token.as_str().get_char(j);
        match find_abrev(specs, c) {
            None => Err(ParseError::UnknownAbbreviation { abbrev: c }),
            Some(k) => Ok(k),
        }
    }

    /// Parses the token list against the specifications. The first token,
    /// the program's own invocation path, is discarded; the remaining
    /// tokens are walked left to right, with the values before any flag
    /// collected for the `(unnamed)` specification. Returns exactly what
    /// [`spec_parse`] describes: the mapping on success, the first
    /// violation otherwise.
    #[verifier::loop_isolation(false)]
    pub fn parse(args: &[String], specs: &[OptionSpec]) -> (r: Result<Config, ParseError>)
        ensures
            match r {
                Ok(c) => spec_parse(args.deep_view(), specs.deep_view()) == Ok::<
                    ConfigMap,
                    ErrorModel,
                >(c@),
                Err(e) => spec_parse(args.deep_view(), specs.deep_view()) == Err::<
                    ConfigMap,
                    ErrorModel,
                >(e@),
            },
    {
        let ghost sm = specs.deep_view();
        let ghost toks = args.deep_view();

        let mut cur: usize = match find_name(specs, "(unnamed)") {
            Some(i) => i,
            None => {
                return Err(ParseError::MissingUnnamedSpec);
            },
        };
        let ghost un = sm[cur as int];
        proof {
            assert(spec_find_name(sm, unnamed_name()) == Some(un));
        }

        let ghost rest = if toks.len() == 0 {
            toks
        } else {
            toks.skip(1)
        };
        let ghost expected = spec_parse_tokens(sm, rest, un, Seq::empty(), Map::empty());

        let mut parsed: Vec<(String, Vec<String>)> = Vec::new();
        let mut values: Vec<String> = Vec::new();
        let mut i: usize = 1;

        proof {
            assert(entries_map(parsed@) =~= Map::<Seq<char>, Seq<Seq<char>>>::empty());
            assert(values.deep_view() =~= Seq::<Seq<char>>::empty());
            assert(rest.skip(0) =~= rest);
        }

        while i < args.len()
            invariant
                cur < specs.len(),
                if toks.len() == 0 {
                    i == 1
                } else {
                    1 <= i <= toks.len()
                },
                unique_names(parsed@),
                spec_parse_tokens(
                    sm,
                    rest.skip(i - 1),
                    sm[cur as int],
                    values.deep_view(),
                    entries_map(parsed@),
                ) == expected,
            decreases args.len() - i,
        {
            let ghost rem = rest.skip(i - 1);
            proof {
                assert(rem[0] == toks[i as int]);
                assert(rem.drop_first() =~= rest.skip(i as int));
            }
            let token: &String = &args[i];
            let tlen = token.as_str().unicode_len();
            if tlen >= 1 && token.as_str().get_char(0) == '-' {
                // the current window closes: arity, then duplicate check
                let vals = match specs[cur].enforce(values) {
                    Ok(v) => v,
                    Err(e) => {
                        return Err(e);
                    },
                };
                match Self::insert_non_duplicate(&mut parsed, &specs[cur], vals) {
                    Ok(_) => {},
                    Err(e) => {
                        return Err(e);
                    },
                }
                values = Vec::new();
                proof {
                    assert(values.deep_view() =~= Seq::<Seq<char>>::empty());
                }
                if tlen >= 2 && token.as_str().get_char(1) == '-' {
                    // a long option: the text after the dashes is a name
                    let name = token.as_str().substring_char(2, tlen);
                    proof {
                        assert(name@ =~= toks[i as int].skip(2));
                    }
                    match find_name(specs, name) {
                        Some(k) => {
                            cur = k;
                        },
                        None => {
                            return Err(ParseError::UnknownLongOption { token: name.to_owned() });
                        },
                    }
                } else {
                    // an abbreviation group: all but the last character are
                    // recorded at once; the last opens the new window
                    match Self::process_group(specs, &mut parsed, cur, token) {
                        Ok(ncur) => {
                            cur = ncur;
                        },
                        Err(e) => {
                            return Err(e);
                        },
                    }
                }
            } else {
                let ghost vdv = values.deep_view();
                values.push(token.clone());
                proof {
                    assert(values.deep_view() =~= vdv.push(toks[i as int]));
                }
            }
            i += 1;
        }

        // the end of input closes the final window
        proof {
            assert(rest.skip(i - 1) =~= Seq::<Seq<char>>::empty());
        }
        let vals = match specs[cur].enforce(values) {
            Ok(v) => v,
            Err(e) => {
                return Err(e);
            },
        };
        match Self::insert_non_duplicate(&mut parsed, &specs[cur], vals) {
            Ok(_) => {},
            Err(e) => {
                return Err(e);
            },
        }

        // every required option must have been recorded
        let ghost m = entries_map(parsed@);
        let mut k: usize = 0;
        proof {
            assert(sm.skip(0) =~= sm);
        }
        while k < specs.len()
            invariant
                k <= specs.len(),
                spec_missing_required(sm.skip(k as int), m) == spec_missing_required(sm, m),
            decreases specs.len() - k,
        {
            if specs[k].required {
                match find_entry(&parsed, &specs[k].name) {
                    Some(idx) => {
                        proof {
                            lemma_entries_map_index(parsed@, idx as int);
                        }
                    },
                    None => {
                        proof {
                            lemma_entries_map_absent(parsed@, sm[k as int].name);
                        }
                        return Err(
                            ParseError::MissingRequiredOption { name: specs[k].name.clone() },
                        );
                    },
                }
            }
            proof {
                assert(sm.skip(k as int).drop_first() =~= sm.skip(k as int + 1));
            }
            k += 1;
        }

        Ok(Config { parsed })
    }

    /// Parses borrowed tokens: the same as [`Config::parse`] after taking
    /// an owned copy of each token.
    pub fn new(args: &[&str], specs: &[OptionSpec]) -> (r: Result<Config, ParseError>)
        ensures
            match r {
                Ok(c) => spec_parse(args.deep_view(), specs.deep_view()) == Ok::<
                    ConfigMap,
                    ErrorModel,
                >(c@),
                Err(e) => spec_parse(args.deep_view(), specs.deep_view()) == Err::<
                    ConfigMap,
                    ErrorModel,
                >(e@),
            },
    {
        let mut owned: Vec<String> = Vec::new();
        let mut i: usize = 0;
        proof {
            assert(owned.deep_view() =~= args.deep_view().take(0));
        }
        while i < args.len()
            invariant
                i <= args.len(),
                owned.deep_view() == args.deep_view().take(i as int),
            decreases args.len() - i,
        {
            let ghost odv = owned.deep_view();
            owned.push(args[i].to_owned());
            proof {
                assert(owned.deep_view() =~= odv.push(args.deep_view()[i as int]));
                assert(owned.deep_view() =~= args.deep_view().take(i as int + 1));
            }
            i += 1;
        }
        let tokens = owned.as_slice();
        proof {
            assert(args.deep_view().take(args.len() as int) =~= args.deep_view());
            assert(tokens.deep_view() =~= owned.deep_view());
        }
        Config::parse(tokens, specs)
    }

    /// Generates a usage string from the specifications: each matching one
    /// is rendered as abbreviation, name, required marker and description,
    /// in the callers' order. The two flags select whether the required
    /// and the unrequired specifications are listed.
    pub fn generate_usage(specs: &[OptionSpec], list_required: bool, list_unrequired: bool) -> (r:
        String)
        ensures
            r@ == spec_usage(specs.deep_view(), list_required, list_unrequired),
    {
        let required_string = if list_required {
            usage_filtered(specs, true)
        } else {
            String::new()
        };
        let unrequired_string = if list_unrequired {
            usage_filtered(specs, false)
        } else {
            String::new()
        };
        required_string.concat(unrequired_string.as_str())
    }

    /// The values recorded for the named option, or `None` if the option
    /// was not supplied. A switch that occurred yields `Some` of an empty
    /// vector.
    pub fn option(&self, name: &str) -> (r: Option<&Vec<String>>)
        ensures
            match r {
                Some(v) => self@.dom().contains(name@) && v.deep_view() == self@[name@],
                None => !self@.dom().contains(name@),
            },
    {
        proof {
            use_type_invariant(self);
        }
        let key = name.to_owned();
        match find_entry(&self.parsed, &key) {
            Some(i) => {
                proof {
                    lemma_entries_map_index(self.parsed@, i as int);
                }
                Some(&self.parsed[i].1)
            },
            None => {
                proof {
                    lemma_entries_map_absent(self.parsed@, name@);
                }
                None
            },
        }
    }
}

/// Relies on `String::push`: appends one character at the end of the
/// string.
#[verifier::external_body]
fn push_char(s: &mut String, c: char)
    ensures
        final(s)@ == old(s)@.push(c),
{
    s.push(c);
}

/// Renders one specification for the usage string.
fn render_spec(sp: &OptionSpec) -> (r: String)
    ensures
        r@ == spec_render(sp@),
{
    let mut s = "    -".to_owned();
    push_char(&mut s, sp.abrev);
    s.append(", --");
    s.append(sp.name.as_str());
    s.append(" ");
    if sp.required {
        s.append("[required]");
    }
    s.append("\n        ");
    s.append(sp.desc.as_str());
    s.append("\n\n");
    proof {
        assert(s@ =~= spec_render(sp@));
    }
    s
}

/// Concatenates the renderings of the specifications whose `required`
/// flag has the given value, in order.
fn usage_filtered(specs: &[OptionSpec], want_required: bool) -> (r: String)
    ensures
        r@ == spec_usage_filtered(specs.deep_view(), want_required),
{
    let ghost sm = specs.deep_view();
    let mut out = String::new();
    let mut i: usize = 0;
    proof {
        assert(out@ =~= spec_usage_filtered(sm.take(0), want_required));
    }
    while i < specs.len()
        invariant
            i <= specs.len(),
            sm == specs.deep_view(),
            out@ == spec_usage_filtered(sm.take(i as int), want_required),
        decreases specs.len() - i,
    {
        if specs[i].required == want_required {
            let piece = render_spec(&specs[i]);
            out.append(piece.as_str());
        }
        proof {
            assert(sm.take(i as int + 1).drop_last() =~= sm.take(i as int));
            assert(out@ =~= spec_usage_filtered(sm.take(i as int + 1), want_required));
        }
        i += 1;
    }
    proof {
        assert(sm.take(specs.len() as int) =~= sm);
    }
    out
}

/// The index of the first specification carrying the given name, if any.
fn find_name(specs: &[OptionSpec], name: &str) -> (r: Option<usize>)
    ensures
        match r {
            Some(i) => i < specs.len() && spec_find_name(specs.deep_view(), name@) == Some(
                specs.deep_view()[i as int],
            ),
            None => spec_find_name(specs.deep_view(), name@) is None,
        },
{
    let ghost sm = specs.deep_view();
    proof {
        assert(sm.skip(0) =~= sm);
    }
    let key = name.to_owned();
    let mut i: usize = 0;
    while i < specs.len()
        invariant
            i <= specs.len(),
            key@ == name@,
            sm == specs.deep_view(),
            spec_find_name(sm.skip(i as int), name@) == spec_find_name(sm, name@),
        decreases specs.len() - i,
    {
        if specs[i].name == key {
            return Some(i);
        }
        proof {
            assert(sm.skip(i as int).drop_first() =~= sm.skip(i as int + 1));
        }
        i += 1;
    }
    None
}

/// The index of the first specification carrying the given abbreviation,
/// if any.
fn find_abrev(specs: &[OptionSpec], abrev: char) -> (r: Option<usize>)
    ensures
        match r {
            Some(i) => i < specs.len() && spec_find_abrev(specs.deep_view(), abrev) == Some(
                specs.deep_view()[i as int],
            ),
            None => spec_find_abrev(specs.deep_view(), abrev) is None,
        },
{
    let ghost sm = specs.deep_view();
    proof {
        assert(sm.skip(0) =~= sm);
    }
    let mut i: usize = 0;
    while i < specs.len()
        invariant
            i <= specs.len(),
            sm == specs.deep_view(),
            spec_find_abrev(sm.skip(i as int), abrev) == spec_find_abrev(sm, abrev),
        decreases specs.len() - i,
    {
        if specs[i].abrev == abrev {
            return Some(i);
        }
        proof {
            assert(sm.skip(i as int).drop_first() =~= sm.skip(i as int + 1));
        }
        i += 1;
    }
    None
}

impl View for Config {
    type V = ConfigMap;

    closed spec fn view(&self) -> ConfigMap {
        entries_map(self.parsed@)
    }
}

impl View for ParseError {
    type V = ErrorModel;

    open spec fn view(&self) -> ErrorModel {
        match self {
            ParseError::MissingUnnamedSpec => ErrorModel::MissingUnnamedSpec,
            ParseError::UnknownLongOption { token } => ErrorModel::UnknownLongOption {
                token: token@,
            },
            ParseError::UnknownAbbreviation { abbrev } => ErrorModel::UnknownAbbreviation {
                abbrev: *abbrev,
            },
            ParseError::ArityViolation { name, actual, policy } => ErrorModel::ArityViolation {
                name: name@,
                actual: *actual as int,
                policy: *policy,
            },
            ParseError::DuplicateOption { name } => ErrorModel::DuplicateOption { name: name@ },
            ParseError::MissingRequiredOption { name } => ErrorModel::MissingRequiredOption {
                name: name@,
            },
        }
    }
}

} // verus!
