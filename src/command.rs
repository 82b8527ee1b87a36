//! The command lines given to cargo for a build, test, run or check.

use vstd::prelude::*;
use crate::text::{is_suffix, views, same_text, ends_with, slice_chars, join, joined};

verus! {

/// A feature of the selected package, as the user set it.
pub struct Feature {
    pub name: String,
    pub enabled: bool,
    pub enabled_by_default: bool,
}

/// Whether a feature has to be named on the command line.
pub open spec fn feature_requested(f: Feature, enable_default: bool) -> bool {
    (f.enabled && !f.enabled_by_default && enable_default) || (f.enabled && !enable_default)
}

/// The names of the features that have to be named on the command line.
pub open spec fn requested_features(fs: Seq<Feature>, enable_default: bool) -> Seq<Seq<char>>
    decreases fs.len(),
{
    if fs.len() == 0 {
        Seq::empty()
    } else if feature_requested(fs.last(), enable_default) {
        requested_features(fs.drop_last(), enable_default).push(fs.last().name@)
    } else {
        requested_features(fs.drop_last(), enable_default)
    }
}

/// The feature flags of a build.
pub struct FeatureSettings {
    pub enabled_features: Vec<String>,
    pub enable_default_features: bool,
}

/// The flags for the features: `--no-default-features` when the default set
/// is off, then `--features a,b` when some are named.
pub open spec fn feature_args(names: Seq<Seq<char>>, enable_default: bool) -> Seq<Seq<char>> {
    let a: Seq<Seq<char>> = if enable_default { Seq::empty() } else { seq!["--no-default-features"@] };
    if names.len() == 0 {
        a
    } else {
        a + seq!["--features"@, joined(names, ","@)]
    }
}

impl FeatureSettings {
    /// The settings of a build from the features shown: with the default set
    /// on, the enabled features it does not hold already; with it off, every
    /// enabled feature.
    pub fn new(features: &Vec<Feature>, enable_default_features: bool) -> (r: Self)
        ensures
            views(r.enabled_features@) == requested_features(features@, enable_default_features),
            r.enable_default_features == enable_default_features,
    {
        let mut enabled_features: Vec<String> = Vec::new();
        let mut i: usize = 0;
        while i < features.len()
            invariant
                i <= features@.len(),
                views(enabled_features@) == requested_features(features@.subrange(0, i as int), enable_default_features),
            decreases features@.len() - i,
        {
            proof {
                assert(features@.subrange(0, i + 1).drop_last() =~= features@.subrange(0, i as int));
            }
            let f = &features[i];
            if (f.enabled && !f.enabled_by_default && enable_default_features) || (f.enabled && !enable_default_features) {
                let ghost before = enabled_features@;
                enabled_features.push(f.name.clone());
                assert(views(enabled_features@) =~= views(before).push(f.name@));
            }
            i = i + 1;
        }
        assert(features@.subrange(0, features@.len() as int) =~= features@);
        FeatureSettings { enabled_features, enable_default_features }
    }

    /// Appends the feature flags to `args`.
    pub fn to_args(&self, args: &mut Vec<String>)
        ensures
            views(final(args)@) == views(old(args)@) + feature_args(views(self.enabled_features@), self.enable_default_features),
    {
        let ghost start = views(args@);
        if !self.enable_default_features {
            args.push(String::from_str("--no-default-features"));
        }
        assert(views(args@) =~= start + if self.enable_default_features { Seq::<Seq<char>>::empty() } else { seq!["--no-default-features"@] });
        if self.enabled_features.len() > 0 {
            let ghost mid = views(args@);
            args.push(String::from_str("--features"));
            args.push(join(&self.enabled_features, ","));
            assert(views(args@) =~= mid + seq!["--features"@, joined(views(self.enabled_features@), ","@)]);
        }
    }
}

/// What the user asked to run: a cargo subcommand, a profile, an optional
/// binary, example or test target, an optional package and extra arguments
/// for the program.
pub struct Action {
    pub command: String,
    pub profile: String,
    pub extra: String,
    pub package: String,
    pub arguments: String,
}

/// How `shlex` splits a command line, if its quoting is sound.
pub uninterp spec fn shell_words(s: Seq<char>) -> Option<Seq<Seq<char>>>;

/// Relies on `shlex::split`: splits a command line as a POSIX shell would,
/// `None` on unbalanced quoting.
#[verifier::external_body]
fn split_arguments(s: &str) -> (r: Option<Vec<String>>)
    ensures
        r is None <==> shell_words(s@) is None,
        r matches Some(v) ==> shell_words(s@) == Some(views(v@)),
{
    shlex::split(s)
}

/// The extra arguments of a run could not be split.
pub enum ArgumentsError {
    Unparsable,
}

/// The flags that pick the target: a binary or an example for `run`, a
/// test for `test`.
pub open spec fn target_args(command: Seq<char>, extra: Seq<char>) -> Seq<Seq<char>> {
    let ex = " (example)"@;
    if command == "run"@ && extra.len() > 0 {
        if is_suffix(ex, extra) {
            seq!["--example"@, extra.subrange(0, extra.len() - ex.len())]
        } else {
            seq!["--bin"@, extra]
        }
    } else if command == "test"@ && extra.len() > 0 {
        seq!["--test"@, extra]
    } else {
        Seq::empty()
    }
}

/// The arguments before the program's own: subcommand, manifest, profile,
/// target, package, features and the JSON message format.
pub open spec fn build_args(a: Action, f: FeatureSettings, manifest: Seq<char>) -> Seq<Seq<char>> {
    seq![a.command@, "--manifest-path"@, manifest]
        + (if a.profile@ == "release"@ { seq!["--release"@] } else { Seq::empty() })
        + target_args(a.command@, a.extra@)
        + (if a.package@.len() > 0 { seq!["-p"@, a.package@] } else { Seq::empty() })
        + feature_args(views(f.enabled_features@), f.enable_default_features)
        + seq!["--message-format"@, "json"@]
}

/// The whole argument list given to cargo, or `None` when the program's
/// arguments cannot be split.
pub open spec fn cargo_args_spec(a: Action, f: FeatureSettings, manifest: Seq<char>) -> Option<Seq<Seq<char>>> {
    if a.arguments@.len() == 0 {
        Some(build_args(a, f, manifest))
    } else {
        match shell_words(a.arguments@) {
            Some(w) => Some(build_args(a, f, manifest) + seq!["--"@] + w),
            None => None,
        }
    }
}

/// Builds the arguments given to cargo for an action; fails before anything
/// is started when the program's arguments cannot be split.
pub fn cargo_args(action: &Action, features: &FeatureSettings, manifest: &str) -> (r: Result<Vec<String>, ArgumentsError>)
    ensures
        r is Err <==> cargo_args_spec(*action, *features, manifest@) is None,
        r matches Ok(v) ==> cargo_args_spec(*action, *features, manifest@) == Some(views(v@)),
{
    let mut args: Vec<String> = Vec::new();
    args.push(action.command.clone());
    args.push(String::from_str("--manifest-path"));
    args.push(String::from_str(manifest));
    let ghost s1 = views(args@);
    assert(s1 =~= seq![action.command@, "--manifest-path"@, manifest@]);
    if same_text(action.profile.as_str(), "release") {
        args.push(String::from_str("--release"));
    }
    let ghost s2 = views(args@);
    assert(s2 =~= s1 + (if action.profile@ == "release"@ { seq!["--release"@] } else { Seq::<Seq<char>>::empty() }));
    let has_extra = action.extra.as_str().unicode_len() > 0;
    if same_text(action.command.as_str(), "run") && has_extra {
        if ends_with(action.extra.as_str(), " (example)") {
            let n = action.extra.as_str().unicode_len();
            proof {
                reveal_strlit(" (example)");
            }
            args.push(String::from_str("--example"));
            args.push(slice_chars(action.extra.as_str(), 0, n - 10));
        } else {
            args.push(String::from_str("--bin"));
            args.push(action.extra.clone());
        }
    } else if same_text(action.command.as_str(), "test") && has_extra {
        args.push(String::from_str("--test"));
        args.push(action.extra.clone());
    }
    let ghost s3 = views(args@);
    assert(s3 =~= s2 + target_args(action.command@, action.extra@));
    if action.package.as_str().unicode_len() > 0 {
        args.push(String::from_str("-p"));
        args.push(action.package.clone());
    }
    let ghost s4 = views(args@);
    assert(s4 =~= s3 + (if action.package@.len() > 0 { seq!["-p"@, action.package@] } else { Seq::<Seq<char>>::empty() }));
    features.to_args(&mut args);
    args.push(String::from_str("--message-format"));
    args.push(String::from_str("json"));
    let ghost s5 = views(args@);
    assert(s5 =~= build_args(*action, *features, manifest@));
    if action.arguments.as_str().unicode_len() > 0 {
        match split_arguments(action.arguments.as_str()) {
            Some(words) => {
                args.push(String::from_str("--"));
                let mut i: usize = 0;
                while i < words.len()
                    invariant
                        i <= words@.len(),
                        views(args@) == s5 + seq!["--"@] + views(words@).subrange(0, i as int),
                    decreases words@.len() - i,
                {
                    let ghost before = views(args@);
                    args.push(words[i].clone());
                    assert(views(args@) =~= before.push(words@[i as int]@));
                    assert(views(words@).subrange(0, i + 1) =~= views(words@).subrange(0, i as int).push(words@[i as int]@));
                    i = i + 1;
                }
                assert(views(words@).subrange(0, words@.len() as int) =~= views(words@));
            },
            None => {
                return Err(ArgumentsError::Unparsable);
            },
        }
    }
    Ok(args)
}

} // verus!
