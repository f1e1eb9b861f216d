use vstd::prelude::*;

verus! {

/// What a run of the program is asked to do.
#[derive(Debug, Clone, Copy, PartialEq, Eq, Structural)]
pub enum Config {
    Normal,
    Help,
    Version,
    ProcessTree { numeric_sort: bool, pid_visiblity: bool },
}

/// Why a command line was refused.
#[derive(Debug, Clone, PartialEq, Eq)]
pub enum ArgumentError {
    /// A token that is none of the known flags.
    UnknownOption(String),
    /// `-h` given together with another flag.
    HelpWithOthers,
    /// `-v` given together with another flag.
    VersionWithOthers,
}

/// Mathematical picture of an `ArgumentError`.
pub enum ArgErrorView {
    UnknownOption(Seq<char>),
    HelpWithOthers,
    VersionWithOthers,
}

impl View for ArgumentError {
    type V = ArgErrorView;

    open spec fn view(&self) -> ArgErrorView {
        match self {
            ArgumentError::UnknownOption(s) => ArgErrorView::UnknownOption(s@),
            ArgumentError::HelpWithOthers => ArgErrorView::HelpWithOthers,
            ArgumentError::VersionWithOthers => ArgErrorView::VersionWithOthers,
        }
    }
}

impl ArgumentError {
    /// The message reported for this error.
    pub fn message(&self) -> (r: String)
        ensures
            r@ == match self {
                ArgumentError::UnknownOption(s) => "Unknown option: "@ + s@,
                ArgumentError::HelpWithOthers => "Help option can't be used with other options"@,
                ArgumentError::VersionWithOthers => "Version option can't be used with other options"@,
            },
    {
        match self {
            ArgumentError::UnknownOption(s) => {
                let mut r = String::from_str("Unknown option: ");
                r.append(s.as_str());
                r
            },
            ArgumentError::HelpWithOthers => String::from_str(
                "Help option can't be used with other options",
            ),
            ArgumentError::VersionWithOthers => String::from_str(
                "Version option can't be used with other options",
            ),
        }
    }
}

pub open spec fn is_pid_flag(a: Seq<char>) -> bool {
    a == "-p"@ || a == "--pid"@
}

pub open spec fn is_sort_flag(a: Seq<char>) -> bool {
    a == "-n"@ || a == "--numeric-sort"@
}

pub open spec fn is_help_flag(a: Seq<char>) -> bool {
    a == "-h"@ || a == "--help"@
}

pub open spec fn is_version_flag(a: Seq<char>) -> bool {
    a == "-v"@ || a == "--version"@
}

pub open spec fn is_known_flag(a: Seq<char>) -> bool {
    is_pid_flag(a) || is_sort_flag(a) || is_help_flag(a) || is_version_flag(a)
}

/// Whether some token of `o` satisfies `f`.
pub open spec fn has_flag(o: Seq<Seq<char>>, f: spec_fn(Seq<char>) -> bool) -> bool {
    exists|j: int| 0 <= j < o.len() && f(#[trigger] o[j])
}

pub open spec fn has_pid(o: Seq<Seq<char>>) -> bool {
    has_flag(o, |a: Seq<char>| is_pid_flag(a))
}

pub open spec fn has_sort(o: Seq<Seq<char>>) -> bool {
    has_flag(o, |a: Seq<char>| is_sort_flag(a))
}

pub open spec fn has_help(o: Seq<Seq<char>>) -> bool {
    has_flag(o, |a: Seq<char>| is_help_flag(a))
}

pub open spec fn has_version(o: Seq<Seq<char>>) -> bool {
    has_flag(o, |a: Seq<char>| is_version_flag(a))
}

/// The first token of `o` that is not a known flag, if any.
pub open spec fn first_unknown(o: Seq<Seq<char>>) -> Option<Seq<char>>
    decreases o.len(),
{
    if o.len() == 0 {
        None
    } else if !is_known_flag(o[0]) {
        Some(o[0])
    } else {
        first_unknown(o.drop_first())
    }
}

pub open spec fn help_conflict(o: Seq<Seq<char>>) -> bool {
    has_help(o) && (has_version(o) || has_sort(o) || has_pid(o))
}

pub open spec fn version_conflict(o: Seq<Seq<char>>) -> bool {
    has_version(o) && (has_help(o) || has_sort(o) || has_pid(o))
}

/// The run mode chosen by a list of known, compatible flags.
pub open spec fn config_of(o: Seq<Seq<char>>) -> Config {
    if has_help(o) {
        Config::Help
    } else if has_version(o) {
        Config::Version
    } else if has_sort(o) || has_pid(o) {
        Config::ProcessTree { numeric_sort: has_sort(o), pid_visiblity: has_pid(o) }
    } else {
        Config::Normal
    }
}

/// What the flags `o` (the command line without the program name) resolve to.
pub open spec fn resolve(o: Seq<Seq<char>>) -> Result<Config, ArgErrorView> {
    match first_unknown(o) {
        Some(s) => Err(ArgErrorView::UnknownOption(s)),
        None => if help_conflict(o) {
            Err(ArgErrorView::HelpWithOthers)
        } else if version_conflict(o) {
            Err(ArgErrorView::VersionWithOthers)
        } else {
            Ok(config_of(o))
        },
    }
}

/// The flags of a command line: every token after the program name.
pub open spec fn options_of(args: Seq<String>) -> Seq<Seq<char>> {
    if args.len() == 0 {
        Seq::empty()
    } else {
        args.map_values(|s: String| s@).drop_first()
    }
}

pub open spec fn outcome_view(r: Result<Config, ArgumentError>) -> Result<Config, ArgErrorView> {
    match r {
        Ok(c) => Ok(c),
        Err(e) => Err(e@),
    }
}

proof fn lemma_first_unknown_suffix(o: Seq<Seq<char>>, i: int)
    requires
        0 <= i < o.len(),
    ensures
        first_unknown(o.subrange(i, o.len() as int)) == if is_known_flag(o[i]) {
            first_unknown(o.subrange(i + 1, o.len() as int))
        } else {
            Some(o[i])
        },
{
    let s = o.subrange(i, o.len() as int);
    assert(s[0] == o[i]);
    assert(s.drop_first() =~= o.subrange(i + 1, o.len() as int));
}

proof fn lemma_has_flag_push(pre: Seq<Seq<char>>, x: Seq<char>, f: spec_fn(Seq<char>) -> bool)
    ensures
        has_flag(pre.push(x), f) == (has_flag(pre, f) || f(x)),
{
    let post = pre.push(x);
    if f(x) {
        assert(post[pre.len() as int] == x);
    }
    if has_flag(pre, f) {
        let j = choose|j: int| 0 <= j < pre.len() && f(#[trigger] pre[j]);
        assert(post[j] == pre[j]);
    }
    if has_flag(post, f) {
        let j = choose|j: int| 0 <= j < post.len() && f(#[trigger] post[j]);
        if j < pre.len() {
            assert(pre[j] == post[j]);
        }
    }
}

/// All tokens of `o` are known flags.
pub open spec fn all_known(o: Seq<Seq<char>>) -> bool {
    forall|i: int| 0 <= i < o.len() ==> is_known_flag(#[trigger] o[i])
}

proof fn lemma_first_unknown_found(o: Seq<Seq<char>>)
    ensures
        first_unknown(o) is None <==> all_known(o),
        first_unknown(o) is Some ==> !is_known_flag(first_unknown(o)->Some_0) && o.contains(
            first_unknown(o)->Some_0,
        ),
    decreases o.len(),
{
    if o.len() > 0 {
        let t = o.drop_first();
        lemma_first_unknown_found(t);
        if is_known_flag(o[0]) {
            if all_known(t) {
                assert forall|i: int| 0 <= i < o.len() implies is_known_flag(#[trigger] o[i]) by {
                    if i > 0 {
                        assert(o[i] == t[i - 1]);
                    }
                }
            }
            if all_known(o) {
                assert forall|i: int| 0 <= i < t.len() implies is_known_flag(#[trigger] t[i]) by {
                    assert(t[i] == o[i + 1]);
                }
            }
            if first_unknown(t) is Some {
                let j = choose|j: int| 0 <= j < t.len() && t[j] == first_unknown(t)->Some_0;
                assert(o[j + 1] == t[j]);
            }
        } else {
            assert(o[0] == o[0]);
        }
    }
}

proof fn lemma_has_flag_same_set(o1: Seq<Seq<char>>, o2: Seq<Seq<char>>, f: spec_fn(Seq<char>) -> bool)
    requires
        o1.to_set() == o2.to_set(),
    ensures
        has_flag(o1, f) == has_flag(o2, f),
{
    if has_flag(o1, f) {
        let j = choose|j: int| 0 <= j < o1.len() && f(#[trigger] o1[j]);
        assert(o1.to_set().contains(o1[j]));
        assert(o2.contains(o1[j]));
    }
    if has_flag(o2, f) {
        let j = choose|j: int| 0 <= j < o2.len() && f(#[trigger] o2[j]);
        assert(o2.to_set().contains(o2[j]));
        assert(o1.contains(o2[j]));
    }
}

/// When every token is a known flag, the outcome depends only on which flags
/// occur: neither their order nor their repetition changes it, and the same
/// flags always resolve to the same single outcome.
pub proof fn lemma_flags_order_free(o1: Seq<Seq<char>>, o2: Seq<Seq<char>>)
    requires
        all_known(o1),
        o1.to_set() == o2.to_set(),
    ensures
        resolve(o1) == resolve(o2),
        !help_conflict(o1) && !version_conflict(o1) ==> resolve(o1) == Ok::<Config, ArgErrorView>(
            config_of(o1),
        ),
{
    assert(all_known(o2)) by {
        assert forall|i: int| 0 <= i < o2.len() implies is_known_flag(#[trigger] o2[i]) by {
            assert(o2.to_set().contains(o2[i]));
            assert(o1.contains(o2[i]));
        }
    }
    lemma_first_unknown_found(o1);
    lemma_first_unknown_found(o2);
    lemma_has_flag_same_set(o1, o2, |a: Seq<char>| is_pid_flag(a));
    lemma_has_flag_same_set(o1, o2, |a: Seq<char>| is_sort_flag(a));
    lemma_has_flag_same_set(o1, o2, |a: Seq<char>| is_help_flag(a));
    lemma_has_flag_same_set(o1, o2, |a: Seq<char>| is_version_flag(a));
}

/// `-h` or `-v` together with any flag of another kind is an argument error,
/// never a run mode and never an unknown option.
pub proof fn lemma_help_version_alone(o: Seq<Seq<char>>)
    requires
        all_known(o),
        has_help(o) || has_version(o),
        has_help(o) ==> has_version(o) || has_sort(o) || has_pid(o),
        has_version(o) ==> has_help(o) || has_sort(o) || has_pid(o),
    ensures
        resolve(o) is Err,
        !(resolve(o)->Err_0 is UnknownOption),
        has_help(o) ==> resolve(o) == Err::<Config, ArgErrorView>(ArgErrorView::HelpWithOthers),
        !has_help(o) ==> resolve(o) == Err::<Config, ArgErrorView>(
            ArgErrorView::VersionWithOthers,
        ),
{
    lemma_first_unknown_found(o);
}

/// A token that is not a known flag makes the command line fail, with an
/// error that names an unknown token of it.
pub proof fn lemma_unknown_flag_refused(o: Seq<Seq<char>>, i: int)
    requires
        0 <= i < o.len(),
        !is_known_flag(o[i]),
    ensures
        resolve(o) is Err,
        resolve(o)->Err_0 is UnknownOption,
        o.contains(resolve(o)->Err_0->UnknownOption_0),
        !is_known_flag(resolve(o)->Err_0->UnknownOption_0),
{
    lemma_first_unknown_found(o);
}

fn str_is(a: &String, lit: &str) -> (r: bool)
    ensures
        r == (a@ == lit@),
{
    let b = String::from_str(lit);
    *a == b
}

impl Config {
    /// Resolves a command line (program name first) into a run mode.
    pub fn build(args: Vec<String>) -> (r: Result<Config, ArgumentError>)
        ensures
            outcome_view(r) == resolve(options_of(args@)),
    {
        if args.len() == 0 {
            return Ok(Config::Normal);
        }
        let ghost o = options_of(args@);
        let mut numeric_sort = false;
        let mut pid_visiblity = false;
        let mut help = false;
        let mut version = false;
        let mut i: usize = 1;
        assert(o.subrange(0, o.len() as int) =~= o);
        while i < args.len()
            invariant
                1 <= i <= args.len(),
                o == options_of(args@),
                o.len() == args.len() - 1,
                forall|j: int| 0 <= j < o.len() ==> #[trigger] o[j] == args@[j + 1]@,
                first_unknown(o) == first_unknown(o.subrange(i - 1, o.len() as int)),
                pid_visiblity == has_pid(o.subrange(0, i - 1)),
                numeric_sort == has_sort(o.subrange(0, i - 1)),
                help == has_help(o.subrange(0, i - 1)),
                version == has_version(o.subrange(0, i - 1)),
            decreases args.len() - i,
        {
            let arg = &args[i];
            let ghost k = i - 1;
            let ghost pre = o.subrange(0, k);
            let ghost post = o.subrange(0, k + 1);
            assert(post == pre.push(o[k]));
            assert(o[k] == arg@);
            proof {
                lemma_first_unknown_suffix(o, k);
            }
            proof {
                reveal_strlit("-p");
                reveal_strlit("--pid");
                reveal_strlit("-n");
                reveal_strlit("--numeric-sort");
                reveal_strlit("-h");
                reveal_strlit("--help");
                reveal_strlit("-v");
                reveal_strlit("--version");
                assert("-p"@[1] == 'p' && "-n"@[1] == 'n' && "-h"@[1] == 'h' && "-v"@[1] == 'v');
                assert("--pid"@.len() == 5 && "--numeric-sort"@.len() == 14);
                assert("--help"@.len() == 6 && "--version"@.len() == 9);
            }

            if str_is(arg, "-p") || str_is(arg, "--pid") {
                pid_visiblity = true;
            } else if str_is(arg, "-n") || str_is(arg, "--numeric-sort") {
                numeric_sort = true;
            } else if str_is(arg, "-h") || str_is(arg, "--help") {
                help = true;
            } else if str_is(arg, "-v") || str_is(arg, "--version") {
                version = true;
            } else {
                return Err(ArgumentError::UnknownOption(arg.clone()));
            }
            proof {
                lemma_has_flag_push(pre, o[k], |a: Seq<char>| is_pid_flag(a));
                lemma_has_flag_push(pre, o[k], |a: Seq<char>| is_sort_flag(a));
                lemma_has_flag_push(pre, o[k], |a: Seq<char>| is_help_flag(a));
                lemma_has_flag_push(pre, o[k], |a: Seq<char>| is_version_flag(a));
            }
            i = i + 1;
        }
        assert(o.subrange(0, o.len() as int) == o);
        assert(o.subrange(o.len() as int, o.len() as int) =~= Seq::<Seq<char>>::empty());
        if help && (version || numeric_sort || pid_visiblity) {
            return Err(ArgumentError::HelpWithOthers);
        }
        if version && (help || numeric_sort || pid_visiblity) {
            return Err(ArgumentError::VersionWithOthers);
        }
        if help {
            Ok(Config::Help)
        } else if version {
            Ok(Config::Version)
        } else if numeric_sort || pid_visiblity {
            Ok(Config::ProcessTree { numeric_sort, pid_visiblity })
        } else {
            Ok(Config::Normal)
        }
    }
}

} // verus!
