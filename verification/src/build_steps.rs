//! Build steps: parameterised commands defined in the configuration and
//! invoked from templates. This module decides, for an invocation, which
//! step of which source runs and how (a command with its `{param}`
//! placeholders filled in, or a file to read), builds the key its result is
//! cached under, and words the errors. Running commands, reading and
//! hashing files and the cache itself happen at the edge.
use vstd::prelude::*;

use crate::cache_bust::{rapid_hash_bytes, rapidhash_fast};
use crate::config::{clone_strings, str_views, ResolvedSource};
use crate::content_service::{string_from_utf8_lossy, utf8_lossy};
use crate::hover::{decimal, usize_to_decimal};
use crate::model::{find_key, key_index, str_value};
use crate::paths::{camino_join, path_join};
use crate::text::{extend_chars, from_chars, occurs_at, occurs_at_exec, push_str_chars, str_eq, to_chars};

verus! {

/// A build step as the configuration defines it: the command to run (its
/// arguments may hold `{param}` placeholders), the names of the parameters
/// it expects, and the names of its file-typed (`@file`) parameters, in
/// order.
pub struct BuildStepDef {
    pub command: Option<Vec<String>>,
    pub params: Option<Vec<String>>,
    pub file_params: Vec<String>,
}

/// A build step definition as plain values.
pub struct BuildStepDefView {
    pub command: Option<Seq<Seq<char>>>,
    pub params: Option<Seq<Seq<char>>>,
    pub file_params: Seq<Seq<char>>,
}

/// The optional list of strings as plain values.
pub open spec fn opt_strs_view(o: Option<Vec<String>>) -> Option<Seq<Seq<char>>> {
    match o {
        Some(v) => Some(str_views(v@)),
        None => None,
    }
}

impl View for BuildStepDef {
    type V = BuildStepDefView;

    open spec fn view(&self) -> BuildStepDefView {
        BuildStepDefView {
            command: opt_strs_view(self.command),
            params: opt_strs_view(self.params),
            file_params: str_views(self.file_params@),
        }
    }
}

fn clone_opt_strings(o: &Option<Vec<String>>) -> (r: Option<Vec<String>>)
    ensures
        opt_strs_view(r) == opt_strs_view(*o),
{
    match o {
        Some(v) => Some(clone_strings(v)),
        None => None,
    }
}

impl BuildStepDef {
    /// A copy of the definition.
    pub fn duplicate(&self) -> (r: BuildStepDef)
        ensures
            r@ == self@,
    {
        BuildStepDef {
            command: clone_opt_strings(&self.command),
            params: clone_opt_strings(&self.params),
            file_params: clone_strings(&self.file_params),
        }
    }
}

/// Named build steps as plain values.
pub open spec fn steps_view(v: Seq<(String, BuildStepDef)>) -> Seq<(Seq<char>, BuildStepDefView)> {
    v.map_values(|p: (String, BuildStepDef)| (p.0@, p.1@))
}

/// A copy of a list of named build steps.
pub fn clone_steps(v: &Vec<(String, BuildStepDef)>) -> (r: Vec<(String, BuildStepDef)>)
    ensures
        steps_view(r@) == steps_view(v@),
{
    let mut out: Vec<(String, BuildStepDef)> = Vec::new();
    let mut i: usize = 0;
    while i < v.len()
        invariant
            i <= v.len(),
            steps_view(out@) == steps_view(v@).take(i as int),
        decreases v.len() - i,
    {
        let ghost before = out@;
        out.push((v[i].0.clone(), v[i].1.duplicate()));
        assert(steps_view(out@) == steps_view(before).push((v@[i as int].0@, v@[i as int].1@)));
        assert(steps_view(v@).take(i + 1 as int) == steps_view(v@).take(i as int).push(
            (v@[i as int].0@, v@[i as int].1@),
        ));
        i = i + 1;
    }
    assert(steps_view(v@).take(v.len() as int) == steps_view(v@));
    out
}

/// Result of a build step execution.
#[derive(Debug, Clone)]
pub enum BuildStepResult {
    /// Successful execution with captured stdout.
    Success(Vec<u8>),
    /// Execution failed with an error message.
    Error(String),
}

/// `s` with every occurrence of `pat` (leftmost first, not overlapping)
/// replaced by `rep`, as `str::replace` does for a non-empty pattern.
pub open spec fn replace_all(s: Seq<char>, pat: Seq<char>, rep: Seq<char>) -> Seq<char>
    recommends
        pat.len() > 0,
    decreases s.len(),
{
    if s.len() == 0 || pat.len() == 0 {
        s
    } else if occurs_at(s, pat, 0) {
        rep + replace_all(s.skip(pat.len() as int), pat, rep)
    } else {
        seq![s[0]] + replace_all(s.drop_first(), pat, rep)
    }
}

fn replace_all_exec(s: &[char], pat: &[char], rep: &[char]) -> (r: Vec<char>)
    requires
        pat.len() > 0,
    ensures
        r@ == replace_all(s@, pat@, rep@),
{
    let mut out: Vec<char> = Vec::new();
    let mut i: usize = 0;
    assert(s@.skip(0) == s@);
    while i < s.len()
        invariant
            i <= s.len(),
            pat.len() > 0,
            replace_all(s@, pat@, rep@) == out@ + replace_all(s@.skip(i as int), pat@, rep@),
        decreases s.len() - i,
    {
        let ghost rest = s@.skip(i as int);
        if occurs_at_exec(s, pat, i) {
            assert(occurs_at(rest, pat@, 0)) by {
                assert(rest.subrange(0, pat@.len() as int) == s@.subrange(i as int, i + pat@.len()));
            }
            assert(rest.skip(pat@.len() as int) == s@.skip(i + pat@.len()));
            extend_chars(&mut out, rep);
            i = i + pat.len();
        } else {
            assert(!occurs_at(rest, pat@, 0)) by {
                if occurs_at(rest, pat@, 0) {
                    assert(rest.subrange(0, pat@.len() as int) == s@.subrange(
                        i as int,
                        i + pat@.len(),
                    ));
                }
            }
            assert(rest.drop_first() == s@.skip(i + 1));
            out.push(s[i]);
            i = i + 1;
        }
    }
    assert(s@.skip(i as int).len() == 0);
    out
}

/// The placeholder `{key}` for a parameter named `key`.
pub open spec fn placeholder(key: Seq<char>) -> Seq<char> {
    seq!['{'] + key + seq!['}']
}

/// `template` with the parameters substituted one after the other, in the
/// order given: for each `(key, value)`, every `{key}` is replaced by
/// `value`.
pub open spec fn spec_interpolate(template: Seq<char>, params: Seq<(Seq<char>, Seq<char>)>) -> Seq<
    char,
>
    decreases params.len(),
{
    if params.len() == 0 {
        template
    } else {
        replace_all(
            spec_interpolate(template, params.drop_last()),
            placeholder(params.last().0),
            params.last().1,
        )
    }
}

/// The views of parameter pairs.
pub open spec fn param_views(params: Seq<(String, String)>) -> Seq<(Seq<char>, Seq<char>)> {
    params.map_values(|p: (String, String)| (p.0@, p.1@))
}

/// Interpolates `{param}` placeholders in a command argument, substituting
/// the parameters in the order given.
pub fn interpolate_params(template: &str, params: &[(String, String)]) -> (r: String)
    ensures
        r@ == spec_interpolate(template@, param_views(params@)),
{
    let mut cur = to_chars(template);
    let ghost pv = param_views(params@);
    let mut k: usize = 0;
    while k < params.len()
        invariant
            k <= params.len(),
            pv == param_views(params@),
            cur@ == spec_interpolate(template@, pv.take(k as int)),
        decreases params.len() - k,
    {
        let key = to_chars(params[k].0.as_str());
        let value = to_chars(params[k].1.as_str());
        let mut pat: Vec<char> = Vec::new();
        pat.push('{');
        extend_chars(&mut pat, key.as_slice());
        pat.push('}');
        assert(pat@ == placeholder(key@));
        cur = replace_all_exec(cur.as_slice(), pat.as_slice(), value.as_slice());
        assert(pv.take(k + 1 as int).drop_last() == pv.take(k as int));
        assert(pv.take(k + 1 as int).last() == pv[k as int]);
        k = k + 1;
    }
    assert(pv.take(params.len() as int) == pv);
    from_chars(cur.as_slice())
}


// ---------------------------------------------------------------------------
// Error messages
// ---------------------------------------------------------------------------

/// The error for an invocation from a source that is not mounted.
pub open spec fn msg_no_source(mount: Seq<char>) -> Seq<char> {
    "No source mounted at '"@ + mount + "'"@
}

/// The error for a step the source does not define.
pub open spec fn msg_unknown_step(step: Seq<char>) -> Seq<char> {
    "Unknown build step: "@ + step
}

/// The error for a parameter the invocation lacks.
pub open spec fn msg_missing_param(param: Seq<char>, step: Seq<char>) -> Seq<char> {
    "Missing parameter '"@ + param + "' for build step '"@ + step + "'"@
}

/// The error for a step whose command has no program.
pub open spec fn msg_empty_command(step: Seq<char>) -> Seq<char> {
    "Build step '"@ + step + "' has empty command"@
}

/// The error for a step with neither a command nor a file parameter.
pub open spec fn msg_nothing_to_do(step: Seq<char>) -> Seq<char> {
    "Build step '"@ + step + "' has no command and no @file parameter"@
}

/// The error for a file parameter whose file could not be hashed, with the
/// reason the file system gave.
pub open spec fn msg_hash_failed(file: Seq<char>, param: Seq<char>, reason: Seq<char>) -> Seq<char> {
    "Failed to hash file '"@ + file + "' for parameter '"@ + param + "': "@ + reason
}

fn message_no_source(mount: &str) -> (r: String)
    ensures
        r@ == msg_no_source(mount@),
{
    let mut out: Vec<char> = Vec::new();
    push_str_chars(&mut out, "No source mounted at '");
    push_str_chars(&mut out, mount);
    push_str_chars(&mut out, "'");
    from_chars(out.as_slice())
}

fn message_unknown_step(step: &str) -> (r: String)
    ensures
        r@ == msg_unknown_step(step@),
{
    let mut out: Vec<char> = Vec::new();
    push_str_chars(&mut out, "Unknown build step: ");
    push_str_chars(&mut out, step);
    from_chars(out.as_slice())
}

fn message_missing_param(param: &str, step: &str) -> (r: String)
    ensures
        r@ == msg_missing_param(param@, step@),
{
    let mut out: Vec<char> = Vec::new();
    push_str_chars(&mut out, "Missing parameter '");
    push_str_chars(&mut out, param);
    push_str_chars(&mut out, "' for build step '");
    push_str_chars(&mut out, step);
    push_str_chars(&mut out, "'");
    from_chars(out.as_slice())
}

fn message_empty_command(step: &str) -> (r: String)
    ensures
        r@ == msg_empty_command(step@),
{
    let mut out: Vec<char> = Vec::new();
    push_str_chars(&mut out, "Build step '");
    push_str_chars(&mut out, step);
    push_str_chars(&mut out, "' has empty command");
    from_chars(out.as_slice())
}

fn message_nothing_to_do(step: &str) -> (r: String)
    ensures
        r@ == msg_nothing_to_do(step@),
{
    let mut out: Vec<char> = Vec::new();
    push_str_chars(&mut out, "Build step '");
    push_str_chars(&mut out, step);
    push_str_chars(&mut out, "' has no command and no @file parameter");
    from_chars(out.as_slice())
}

/// The error for a file parameter whose file could not be hashed.
pub fn hash_failure_message(file: &str, param: &str, reason: &str) -> (r: String)
    ensures
        r@ == msg_hash_failed(file@, param@, reason@),
{
    let mut out: Vec<char> = Vec::new();
    push_str_chars(&mut out, "Failed to hash file '");
    push_str_chars(&mut out, file);
    push_str_chars(&mut out, "' for parameter '");
    push_str_chars(&mut out, param);
    push_str_chars(&mut out, "': ");
    push_str_chars(&mut out, reason);
    from_chars(out.as_slice())
}

// ---------------------------------------------------------------------------
// Which step runs
// ---------------------------------------------------------------------------

/// One source's build steps and the directory they run in.
pub struct SourceSteps {
    pub mount: String,
    pub steps: Vec<(String, BuildStepDef)>,
    pub project_dir: String,
}

/// Runs build steps for the sources of a site. Steps are source-scoped: an
/// invocation resolves against the steps of the source mounted where the
/// page being rendered comes from, and runs in that source's directory.
pub struct BuildStepExecutor {
    pub by_mount: Vec<SourceSteps>,
}

/// `i` is the last source mounted at `mount` (a later source with the same
/// mount replaces an earlier one).
pub open spec fn is_last_mount(v: Seq<SourceSteps>, mount: Seq<char>, i: int) -> bool {
    &&& 0 <= i < v.len()
    &&& v[i].mount@ == mount
    &&& forall|j: int| i < j < v.len() ==> #[trigger] v[j].mount@ != mount
}

/// The source mounted at `mount`, if any.
pub open spec fn mount_index(v: Seq<SourceSteps>, mount: Seq<char>) -> Option<int> {
    if exists|i: int| is_last_mount(v, mount, i) {
        Some(choose|i: int| is_last_mount(v, mount, i))
    } else {
        None
    }
}

proof fn lemma_mount_index(v: Seq<SourceSteps>, mount: Seq<char>, i: int)
    requires
        is_last_mount(v, mount, i),
    ensures
        mount_index(v, mount) == Some(i),
{
    let j = choose|j: int| is_last_mount(v, mount, j);
    assert(is_last_mount(v, mount, j));
    if j < i {
        assert(v[i].mount@ != mount);
    }
    if i < j {
        assert(v[j].mount@ != mount);
    }
}

/// The invocation gives a parameter named `name`.
pub open spec fn has_param(params: Seq<(String, String)>, name: Seq<char>) -> bool {
    key_index(params, name) is Some
}

/// `i` is the first expected parameter that the invocation lacks.
pub open spec fn is_first_missing(expected: Seq<Seq<char>>, params: Seq<(String, String)>, i: int) -> bool {
    &&& 0 <= i < expected.len()
    &&& !has_param(params, expected[i])
    &&& forall|j: int| 0 <= j < i ==> has_param(params, #[trigger] expected[j])
}

/// The first expected parameter the invocation lacks, if any.
pub open spec fn first_missing(expected: Seq<Seq<char>>, params: Seq<(String, String)>) -> Option<int> {
    if exists|i: int| is_first_missing(expected, params, i) {
        Some(choose|i: int| is_first_missing(expected, params, i))
    } else {
        None
    }
}

proof fn lemma_first_missing(expected: Seq<Seq<char>>, params: Seq<(String, String)>, i: int)
    requires
        is_first_missing(expected, params, i),
    ensures
        first_missing(expected, params) == Some(i),
{
    let j = choose|j: int| is_first_missing(expected, params, j);
    assert(is_first_missing(expected, params, j));
    if j < i {
        assert(has_param(params, expected[j]));
    }
    if i < j {
        assert(has_param(params, expected[i]));
    }
}

/// What resolving an invocation gives: the error it fails with, or the
/// indices of the source and of the step that run.
pub open spec fn spec_resolve_step(
    by_mount: Seq<SourceSteps>,
    mount: Seq<char>,
    step: Seq<char>,
    params: Seq<(String, String)>,
) -> Result<(int, int), Seq<char>> {
    match mount_index(by_mount, mount) {
        None => Err(msg_no_source(mount)),
        Some(si) => match key_index(by_mount[si].steps@, step) {
            None => Err(msg_unknown_step(step)),
            Some(ki) => match by_mount[si].steps@[ki].1@.params {
                Some(expected) => match first_missing(expected, params) {
                    Some(j) => Err(msg_missing_param(expected[j], step)),
                    None => Ok((si, ki)),
                },
                None => Ok((si, ki)),
            },
        },
    }
}

fn find_mount(v: &Vec<SourceSteps>, mount: &str) -> (r: Option<usize>)
    ensures
        match r {
            Some(i) => mount_index(v@, mount@) == Some(i as int),
            None => mount_index(v@, mount@) is None,
        },
{
    let mut i: usize = v.len();
    while i > 0
        invariant
            i <= v.len(),
            forall|j: int| i <= j < v.len() ==> #[trigger] v@[j].mount@ != mount@,
        decreases i,
    {
        i = i - 1;
        if str_eq(v[i].mount.as_str(), mount) {
            proof {
                lemma_mount_index(v@, mount@, i as int);
            }
            return Some(i);
        }
    }
    proof {
        if exists|k: int| is_last_mount(v@, mount@, k) {
            let k = choose|k: int| is_last_mount(v@, mount@, k);
            assert(v@[k].mount@ == mount@);
        }
    }
    None
}

fn find_missing(expected: &Vec<String>, params: &Vec<(String, String)>) -> (r: Option<usize>)
    ensures
        match r {
            Some(i) => first_missing(str_views(expected@), params@) == Some(i as int),
            None => first_missing(str_views(expected@), params@) is None,
        },
{
    let ghost ev = str_views(expected@);
    let mut i: usize = 0;
    while i < expected.len()
        invariant
            i <= expected.len(),
            ev == str_views(expected@),
            forall|j: int| 0 <= j < i ==> has_param(params@, #[trigger] ev[j]),
        decreases expected.len() - i,
    {
        assert(ev[i as int] == expected@[i as int]@);
        match find_key(params, expected[i].as_str()) {
            Some(_) => {},
            None => {
                proof {
                    lemma_first_missing(ev, params@, i as int);
                }
                return Some(i);
            },
        }
        i = i + 1;
    }
    proof {
        if exists|k: int| is_first_missing(ev, params@, k) {
            let k = choose|k: int| is_first_missing(ev, params@, k);
            assert(has_param(params@, ev[k]));
        }
    }
    None
}

impl BuildStepExecutor {
    /// An executor for the build steps of every source, each running in
    /// its source's project directory.
    pub fn new(sources: &[ResolvedSource]) -> (r: BuildStepExecutor)
        ensures
            r.by_mount@.len() == sources@.len(),
            forall|i: int|
                0 <= i < sources@.len() ==> {
                    &&& (#[trigger] r.by_mount@[i]).mount@ == sources@[i].mount@
                    &&& r.by_mount@[i].project_dir@ == sources@[i].project_dir@
                    &&& steps_view(r.by_mount@[i].steps@) == steps_view(sources@[i].build_steps@)
                },
    {
        let mut out: Vec<SourceSteps> = Vec::new();
        let mut i: usize = 0;
        while i < sources.len()
            invariant
                i <= sources.len(),
                out@.len() == i,
                forall|k: int|
                    0 <= k < i ==> {
                        &&& (#[trigger] out@[k]).mount@ == sources@[k].mount@
                        &&& out@[k].project_dir@ == sources@[k].project_dir@
                        &&& steps_view(out@[k].steps@) == steps_view(sources@[k].build_steps@)
                    },
            decreases sources.len() - i,
        {
            let s = &sources[i];
            out.push(
                SourceSteps {
                    mount: s.mount.clone(),
                    steps: clone_steps(&s.build_steps),
                    project_dir: s.project_dir.clone(),
                },
            );
            i = i + 1;
        }
        BuildStepExecutor { by_mount: out }
    }

    /// Resolves an invocation of `step_name` from the source mounted at
    /// `mount`: fails when no source is mounted there, when that source has
    /// no such step, or when an expected parameter is missing (the first in
    /// the step's order); otherwise gives the indices of the source and of
    /// the step.
    pub fn resolve_step(&self, mount: &str, step_name: &str, params: &Vec<(String, String)>) -> (r:
        Result<(usize, usize), String>)
        ensures
            match spec_resolve_step(self.by_mount@, mount@, step_name@, params@) {
                Ok((si, ki)) => r matches Ok((a, b)) && a == si && b == ki,
                Err(e) => r matches Err(m) && m@ == e,
            },
    {
        let si = match find_mount(&self.by_mount, mount) {
            Some(i) => i,
            None => {
                return Err(message_no_source(mount));
            },
        };
        let source = &self.by_mount[si];
        let ki = match find_key(&source.steps, step_name) {
            Some(k) => k,
            None => {
                return Err(message_unknown_step(step_name));
            },
        };
        let def = &source.steps[ki].1;
        match &def.params {
            Some(expected) => match find_missing(expected, params) {
                Some(j) => {
                    assert(str_views(expected@)[j as int] == expected@[j as int]@);
                    Err(message_missing_param(expected[j].as_str(), step_name))
                },
                None => Ok((si, ki)),
            },
            None => Ok((si, ki)),
        }
    }
}

// ---------------------------------------------------------------------------
// What a step does
// ---------------------------------------------------------------------------

/// What running a resolved step comes to.
pub enum StepAction {
    /// The step fails with this message.
    Fail(String),
    /// Run `program` with `args` in the source's project directory.
    Run { program: String, args: Vec<String> },
    /// Read the file at `path`.
    ReadFile { path: String },
}

/// The arguments interpolated, each with the parameters in order.
pub open spec fn interpolate_all(args: Seq<Seq<char>>, params: Seq<(Seq<char>, Seq<char>)>) -> Seq<
    Seq<char>,
> {
    args.map_values(|a: Seq<char>| spec_interpolate(a, params))
}

/// What a resolved step does: with a command, run its first argument as
/// the program and the rest as its arguments, all with `{param}`
/// placeholders filled in (an empty command fails); without one, read the
/// file named by the step's first file parameter, under the project
/// directory (failing when the step has no file parameter or the
/// invocation does not give it).
pub open spec fn spec_step_action(
    project_dir: Seq<char>,
    step: Seq<char>,
    def: BuildStepDefView,
    params: Seq<(String, String)>,
    action: StepAction,
) -> bool {
    match def.command {
        Some(cmd) => if cmd.len() == 0 {
            action matches StepAction::Fail(m) && m@ == msg_empty_command(step)
        } else {
            let all = interpolate_all(cmd, param_views(params));
            action matches StepAction::Run { program, args } && program@ == all[0] && str_views(
                args@,
            ) == all.skip(1)
        },
        None => if def.file_params.len() == 0 {
            action matches StepAction::Fail(m) && m@ == msg_nothing_to_do(step)
        } else {
            match str_value(params, def.file_params[0]) {
                None => action matches StepAction::Fail(m) && m@ == msg_missing_param(
                    def.file_params[0],
                    step,
                ),
                Some(file) => action matches StepAction::ReadFile { path } && path@ == camino_join(
                    project_dir,
                    file,
                ),
            }
        },
    }
}

/// What running step `def` (named `step_name`, of a source whose project
/// directory is `project_dir`) with `params` comes to.
pub fn step_action(
    project_dir: &str,
    step_name: &str,
    def: &BuildStepDef,
    params: &Vec<(String, String)>,
) -> (r: StepAction)
    ensures
        spec_step_action(project_dir@, step_name@, def@, params@, r),
{
    match &def.command {
        Some(cmd) => {
            if cmd.len() == 0 {
                return StepAction::Fail(message_empty_command(step_name));
            }
            let ghost all = interpolate_all(str_views(cmd@), param_views(params@));
            let program = interpolate_params(cmd[0].as_str(), params.as_slice());
            let mut args: Vec<String> = Vec::new();
            let mut i: usize = 1;
            while i < cmd.len()
                invariant
                    1 <= i <= cmd.len(),
                    all == interpolate_all(str_views(cmd@), param_views(params@)),
                    str_views(args@) == all.skip(1).take(i - 1),
                decreases cmd.len() - i,
            {
                let a = interpolate_params(cmd[i].as_str(), params.as_slice());
                let ghost before = args@;
                args.push(a);
                assert(str_views(args@) == str_views(before).push(a@));
                assert(all.skip(1).take(i as int) == all.skip(1).take(i - 1).push(all[i as int]));
                i = i + 1;
            }
            assert(all.skip(1).take(cmd.len() - 1) == all.skip(1));
            StepAction::Run { program, args }
        },
        None => {
            if def.file_params.len() == 0 {
                return StepAction::Fail(message_nothing_to_do(step_name));
            }
            let name = def.file_params[0].as_str();
            assert(def@.file_params[0] == name@);
            match find_key(params, name) {
                None => StepAction::Fail(message_missing_param(name, step_name)),
                Some(k) => StepAction::ReadFile {
                    path: path_join(project_dir, params[k].1.as_str()),
                },
            }
        },
    }
}

/// The file parameters of `def` that the invocation gives, in the step's
/// order: each parameter's name with its file's path.
pub open spec fn spec_file_targets(def: BuildStepDefView, params: Seq<(String, String)>) -> Seq<
    (Seq<char>, Seq<char>),
>
    decreases def.file_params.len(),
{
    if def.file_params.len() == 0 {
        Seq::empty()
    } else {
        let rest = spec_file_targets(
            BuildStepDefView { file_params: def.file_params.drop_last(), ..def },
            params,
        );
        match str_value(params, def.file_params.last()) {
            Some(file) => rest.push((def.file_params.last(), file)),
            None => rest,
        }
    }
}

/// The files whose contents the cache key of an invocation depends on:
/// each file parameter of the step that the invocation gives, with the
/// path it names.
pub fn file_hash_targets(def: &BuildStepDef, params: &Vec<(String, String)>) -> (r: Vec<
    (String, String),
>)
    ensures
        param_views(r@) == spec_file_targets(def@, params@),
{
    let mut out: Vec<(String, String)> = Vec::new();
    let mut i: usize = 0;
    let ghost fp = def@.file_params;
    while i < def.file_params.len()
        invariant
            i <= def.file_params.len(),
            fp == def@.file_params,
            param_views(out@) == spec_file_targets(
                BuildStepDefView { file_params: fp.take(i as int), ..def@ },
                params@,
            ),
        decreases def.file_params.len() - i,
    {
        let name = def.file_params[i].as_str();
        let ghost prefix = BuildStepDefView { file_params: fp.take(i + 1 as int), ..def@ };
        assert(prefix.file_params.drop_last() == fp.take(i as int));
        assert(prefix.file_params.last() == name@);
        match find_key(params, name) {
            Some(k) => {
                let ghost before = out@;
                out.push((def.file_params[i].clone(), params[k].1.clone()));
                assert(param_views(out@) == param_views(before).push((name@, params@[k as int].1@)));
            },
            None => {},
        }
        i = i + 1;
    }
    assert(fp.take(def.file_params.len() as int) == fp);
    out
}

// ---------------------------------------------------------------------------
// Cache keys
// ---------------------------------------------------------------------------

/// `a` comes no later than `b` in the order of strings: character by
/// character, a proper prefix first.
pub open spec fn lex_le(a: Seq<char>, b: Seq<char>) -> bool
    decreases a.len(),
{
    if a.len() == 0 {
        true
    } else if b.len() == 0 {
        false
    } else if a[0] != b[0] {
        a[0] < b[0]
    } else {
        lex_le(a.drop_first(), b.drop_first())
    }
}

/// Any two strings are ordered one way or the other.
pub proof fn lemma_lex_total(a: Seq<char>, b: Seq<char>)
    ensures
        lex_le(a, b) || lex_le(b, a),
    decreases a.len(),
{
    if a.len() > 0 && b.len() > 0 && a[0] == b[0] {
        lemma_lex_total(a.drop_first(), b.drop_first());
    }
}

/// The order of strings is transitive.
pub proof fn lemma_lex_transitive(a: Seq<char>, b: Seq<char>, c: Seq<char>)
    requires
        lex_le(a, b),
        lex_le(b, c),
    ensures
        lex_le(a, c),
    decreases a.len(),
{
    if a.len() > 0 && b.len() > 0 && c.len() > 0 && a[0] == b[0] && b[0] == c[0] {
        lemma_lex_transitive(a.drop_first(), b.drop_first(), c.drop_first());
    }
}

/// Two strings ordered both ways are equal.
pub proof fn lemma_lex_antisymmetric(a: Seq<char>, b: Seq<char>)
    requires
        lex_le(a, b),
        lex_le(b, a),
    ensures
        a == b,
    decreases a.len(),
{
    if a.len() > 0 && b.len() > 0 && a[0] == b[0] {
        lemma_lex_antisymmetric(a.drop_first(), b.drop_first());
        assert(a == seq![a[0]] + a.drop_first());
        assert(b == seq![b[0]] + b.drop_first());
    } else if a.len() == 0 && b.len() == 0 {
        assert(a =~= b);
    }
}

/// Every string comes no later than itself.
pub proof fn lemma_lex_reflexive(a: Seq<char>)
    ensures
        lex_le(a, a),
    decreases a.len(),
{
    if a.len() > 0 {
        lemma_lex_reflexive(a.drop_first());
    }
}

/// Whether `a` comes strictly before `b`.
pub fn key_less(a: &[char], b: &[char]) -> (r: bool)
    ensures
        r == !lex_le(b@, a@),
{
    let mut i: usize = 0;
    assert(a@.skip(0) == a@ && b@.skip(0) == b@);
    while i < a.len() && i < b.len()
        invariant
            i <= a.len(),
            i <= b.len(),
            a@.take(i as int) == b@.take(i as int),
            lex_le(b@, a@) == lex_le(b@.skip(i as int), a@.skip(i as int)),
        decreases a.len() - i,
    {
        if a[i] != b[i] {
            let ghost bs = b@.skip(i as int);
            let ghost as_ = a@.skip(i as int);
            assert(bs[0] == b@[i as int] && as_[0] == a@[i as int]);
            return a[i] < b[i];
        }
        assert(a@.take(i + 1) == a@.take(i as int).push(a@[i as int]));
        assert(b@.take(i + 1) == b@.take(i as int).push(b@[i as int]));
        assert(b@.skip(i as int).drop_first() == b@.skip(i + 1));
        assert(a@.skip(i as int).drop_first() == a@.skip(i + 1));
        i = i + 1;
    }
    i < b.len()
}

/// The keys of `v` come in order.
pub open spec fn keys_sorted<V>(v: Seq<(String, V)>) -> bool {
    forall|i: int, j: int| 0 <= i < j < v.len() ==> lex_le(#[trigger] v[i].0@, #[trigger] v[j].0@)
}

/// `v` sorted by key: the same entries, keys in order.
pub fn sort_by_key<V>(v: Vec<(String, V)>) -> (r: Vec<(String, V)>)
    ensures
        r@.to_multiset() == v@.to_multiset(),
        keys_sorted(r@),
{
    let mut rest = v;
    let mut out: Vec<(String, V)> = Vec::new();
    proof {
        broadcast use vstd::seq_lib::group_to_multiset_ensures;

        assert(out@.to_multiset().add(rest@.to_multiset()) =~= rest@.to_multiset());
    }
    while rest.len() > 0
        invariant
            out@.to_multiset().add(rest@.to_multiset()) == v@.to_multiset(),
            keys_sorted(out@),
        decreases rest.len(),
    {
        let ghost rest_before = rest@;
        let ghost out_before = out@;
        let e = rest.pop().unwrap();
        assert(rest_before == rest@.push(e));
        let key = to_chars(e.0.as_str());
        let mut pos: usize = 0;
        let mut stop = false;
        while pos < out.len() && !stop
            invariant
                pos <= out.len(),
                out@ == out_before,
                key@ == e.0@,
                forall|j: int| 0 <= j < pos ==> lex_le(#[trigger] out@[j].0@, e.0@),
                stop ==> pos < out.len() && !lex_le(out@[pos as int].0@, e.0@),
            decreases out.len() - pos + if stop {
                0int
            } else {
                1int
            },
        {
            let k2 = to_chars(out[pos].0.as_str());
            if key_less(key.as_slice(), k2.as_slice()) {
                stop = true;
            } else {
                pos = pos + 1;
            }
        }
        let ghost p = pos as int;
        out.insert(pos, e);
        assert(out@ == out_before.insert(p, e));
        assert(keys_sorted(out@)) by {
            assert forall|i: int, j: int| 0 <= i < j < out@.len() implies lex_le(
                #[trigger] out@[i].0@,
                #[trigger] out@[j].0@,
            ) by {
                if j < p {
                } else if i < p && j == p {
                } else if i < p && j > p {
                    assert(out@[j] == out_before[j - 1]);
                } else if i == p {
                    assert(out@[j] == out_before[j - 1]);
                    lemma_lex_total(e.0@, out_before[p].0@);
                    if j - 1 > p {
                        assert(lex_le(out_before[p].0@, out_before[j - 1].0@));
                        lemma_lex_transitive(e.0@, out_before[p].0@, out_before[j - 1].0@);
                    }
                } else {
                    assert(out@[i] == out_before[i - 1]);
                    assert(out@[j] == out_before[j - 1]);
                }
            }
        }
        proof {
            broadcast use vstd::seq_lib::group_to_multiset_ensures;

            assert(out@.to_multiset().add(rest@.to_multiset()) =~= out_before.to_multiset().add(
                rest_before.to_multiset(),
            ));
        }
    }
    out
}

/// Reordering a sequence reorders its image under any function the same
/// way: equal multisets stay equal after mapping each element.
pub proof fn lemma_map_values_multiset<A, B>(s: Seq<A>, t: Seq<A>, f: spec_fn(A) -> B)
    requires
        s.to_multiset() == t.to_multiset(),
    ensures
        s.map_values(f).to_multiset() == t.map_values(f).to_multiset(),
    decreases s.len(),
{
    broadcast use vstd::seq_lib::group_to_multiset_ensures;
    broadcast use vstd::multiset::group_multiset_axioms;

    if s.len() == 0 {
        assert(t.to_multiset().len() == 0);
        assert(s.map_values(f) =~= Seq::<B>::empty());
        assert(t.map_values(f) =~= Seq::<B>::empty());
    } else {
        let a = s.last();
        let s1 = s.drop_last();
        assert(s == s1.push(a));
        assert(s.to_multiset().count(a) > 0);
        assert(t.contains(a));
        let j = choose|j: int| 0 <= j < t.len() && t[j] == a;
        let t1 = t.remove(j);
        assert(t1.to_multiset() == t.to_multiset().remove(a));
        assert(s1.to_multiset() =~= s.to_multiset().remove(a));
        lemma_map_values_multiset(s1, t1, f);
        assert(s.map_values(f) =~= s1.map_values(f).push(f(a)));
        assert(t1.insert(j, a) =~= t);
        assert(t.map_values(f) =~= t1.map_values(f).insert(j, f(a)));
        assert(s.map_values(f).to_multiset() =~= s1.map_values(f).to_multiset().insert(f(a)));
        assert(t.map_values(f).to_multiset() =~= t1.map_values(f).to_multiset().insert(f(a)));
    }
}

/// The key a build step's result is cached under: the source's mount,
/// the step's name, the parameters and the hashes of the file parameters'
/// contents, each list sorted by name so that the order in which they were
/// given does not matter.
#[derive(Debug, Clone, PartialEq, Eq, Hash)]
pub struct CacheKey {
    pub mount: String,
    pub step_name: String,
    pub params: Vec<(String, String)>,
    pub file_hashes: Vec<(String, u64)>,
}

/// The cache key of an invocation of `step_name` from the source mounted
/// at `mount`, with its parameters and the hashes of its file parameters.
pub fn cache_key(
    mount: &str,
    step_name: &str,
    params: Vec<(String, String)>,
    file_hashes: Vec<(String, u64)>,
) -> (r: CacheKey)
    ensures
        r.mount@ == mount@,
        r.step_name@ == step_name@,
        r.params@.to_multiset() == params@.to_multiset(),
        keys_sorted(r.params@),
        r.file_hashes@.to_multiset() == file_hashes@.to_multiset(),
        keys_sorted(r.file_hashes@),
{
    CacheKey {
        mount: from_chars(to_chars(mount).as_slice()),
        step_name: from_chars(to_chars(step_name).as_slice()),
        params: sort_by_key(params),
        file_hashes: sort_by_key(file_hashes),
    }
}

/// The hash a file parameter's contents contribute to a cache key: the
/// rapidhash of the bytes.
pub fn file_contents_hash(contents: &[u8]) -> (h: u64)
    ensures
        h == rapidhash_fast(contents@),
{
    rapid_hash_bytes(contents)
}

// ---------------------------------------------------------------------------
// Command results
// ---------------------------------------------------------------------------

/// An exit code as `{:?}` shows an `Option<i32>`: `Some(3)`, `Some(-1)` or
/// `None`.
pub open spec fn exit_code_text(code: Option<i32>) -> Seq<char> {
    match code {
        Some(c) => "Some("@ + (if c < 0 {
            seq!['-'] + decimal((-c) as nat)
        } else {
            decimal(c as nat)
        }) + ")"@,
        None => "None"@,
    }
}

/// The error for a command that exited unsuccessfully: its exit code and
/// what it wrote to standard error (decoded as `String::from_utf8_lossy`
/// does).
pub open spec fn msg_command_failed(code: Option<i32>, stderr: Seq<u8>) -> Seq<char> {
    "Command failed with exit code "@ + exit_code_text(code) + ": "@ + utf8_lossy(stderr)
}

/// What a finished command gives: its standard output when it succeeded,
/// else the failure message.
pub fn command_result(success: bool, code: Option<i32>, stdout: Vec<u8>, stderr: &[u8]) -> (r:
    BuildStepResult)
    ensures
        success ==> (r matches BuildStepResult::Success(out) && out@ == stdout@),
        !success ==> (r matches BuildStepResult::Error(m) && m@ == msg_command_failed(code, stderr@)),
{
    if success {
        return BuildStepResult::Success(stdout);
    }
    let mut out: Vec<char> = Vec::new();
    push_str_chars(&mut out, "Command failed with exit code ");
    match code {
        Some(c) => {
            push_str_chars(&mut out, "Some(");
            if c < 0 {
                out.push('-');
                let mag: u32 = if c == i32::MIN {
                    2147483648u32
                } else {
                    (-c) as u32
                };
                let d = usize_to_decimal(mag as usize);
                push_str_chars(&mut out, d.as_str());
            } else {
                let d = usize_to_decimal(c as usize);
                push_str_chars(&mut out, d.as_str());
            }
            push_str_chars(&mut out, ")");
        },
        None => {
            push_str_chars(&mut out, "None");
        },
    }
    push_str_chars(&mut out, ": ");
    let text = string_from_utf8_lossy(stderr);
    push_str_chars(&mut out, text.as_str());
    proof {
        assert(out@ == "Command failed with exit code "@ + exit_code_text(code) + ": "@ + text@);
    }
    BuildStepResult::Error(from_chars(out.as_slice()))
}


/// No key occurs twice in `v`.
pub open spec fn keys_distinct<V>(v: Seq<(String, V)>) -> bool {
    forall|i: int, j: int| 0 <= i < j < v.len() ==> (#[trigger] v[i]).0@ != (#[trigger] v[j]).0@
}

/// Two cache keys of invocations whose parameters (or file hashes) are the
/// same up to order, no key named twice, hold them in the same order: the
/// sorted lists are equal, so equal invocations get equal cache keys
/// whatever the order in which their parameters came.
pub proof fn law_cache_key_ignores_order<V>(a: Seq<(String, V)>, b: Seq<(String, V)>)
    requires
        a.to_multiset() == b.to_multiset(),
        keys_sorted(a),
        keys_sorted(b),
        keys_distinct(a),
    ensures
        a == b,
    decreases a.len(),
{
    broadcast use vstd::seq_lib::group_to_multiset_ensures;

    if a.len() == 0 {
        assert(b.to_multiset().len() == 0);
        assert(b =~= a);
    } else {
        let x = a[0];
        assert(a.contains(x));
        assert(a.to_multiset().contains(x));
        assert(b.contains(x));
        let j = choose|j: int| 0 <= j < b.len() && b[j] == x;
        let y = b[0];
        assert(b.contains(y));
        assert(b.to_multiset().contains(y));
        assert(a.to_multiset().contains(y));
        assert(a.contains(y));
        let i = choose|i: int| 0 <= i < a.len() && a[i] == y;
        if i > 0 {
            assert(lex_le(a[0].0@, a[i].0@));
        } else {
            lemma_lex_reflexive(a[0].0@);
        }
        if j > 0 {
            assert(lex_le(b[0].0@, b[j].0@));
        } else {
            lemma_lex_reflexive(b[0].0@);
        }
        lemma_lex_antisymmetric(x.0@, y.0@);
        if i > 0 {
            assert(a[0].0@ != a[i].0@);
        }
        assert(x == y);
        assert(a.remove(0) =~= a.drop_first());
        assert(b.remove(0) =~= b.drop_first());
        assert(a.drop_first().to_multiset() == a.to_multiset().remove(x));
        assert(b.drop_first().to_multiset() == b.to_multiset().remove(y));
        let a1 = a.drop_first();
        let b1 = b.drop_first();
        assert forall|p: int, q: int| 0 <= p < q < a1.len() implies lex_le(
            #[trigger] a1[p].0@,
            #[trigger] a1[q].0@,
        ) by {
            assert(a1[p] == a[p + 1] && a1[q] == a[q + 1]);
        }
        assert forall|p: int, q: int| 0 <= p < q < b1.len() implies lex_le(
            #[trigger] b1[p].0@,
            #[trigger] b1[q].0@,
        ) by {
            assert(b1[p] == b[p + 1] && b1[q] == b[q + 1]);
        }
        assert forall|p: int, q: int| 0 <= p < q < a1.len() implies (#[trigger] a1[p]).0@ != (
        #[trigger] a1[q]).0@ by {
            assert(a1[p] == a[p + 1] && a1[q] == a[q + 1]);
        }
        law_cache_key_ignores_order(a1, b1);
        assert(a =~= seq![x] + a1);
        assert(b =~= seq![y] + b1);
    }
}

} // verus!
