//! Run configuration and command-line parsing.
use crate::scalar::{whole, Scalar};
use crate::text::{counted, parse_count, reads};
use vstd::prelude::*;

verus! {

#[derive(Clone)]
pub struct Config<T> {
    /// "cavity" or "cylinder"
    pub scenario: String,
    /// transverse resolution in nodes
    pub n: usize,
    /// Reynolds number
    pub re: T,
    /// driving velocity
    pub u_lid: T,
    /// domain size
    pub l: T,
    /// final time
    pub t_end: T,
    /// CFL number for the adaptive time step
    pub cfl: T,
    /// time between field snapshots
    pub out_every: T,
    /// relative change at which the iterative Poisson solver stops
    pub poisson_tol: T,
    /// bound on its sweeps
    pub poisson_max_it: usize,
    /// 0 = use all available cores
    pub threads: usize,
    /// "auto", "fft" or "sor"
    pub solver: String,
    /// "none", "save" or "show"
    pub view: String,
    pub outdir: String,
}

impl<T: Scalar> Default for Config<T> {
    fn default() -> (r: Config<T>)
        ensures
            r.scenario@ == "cavity"@,
            r.n == 129,
            r.re == whole::<T>(5000),
            r.u_lid == whole::<T>(1),
            r.l == whole::<T>(1),
            r.t_end == whole::<T>(30),
            r.cfl == T::ratio(2, 5),
            r.out_every == T::ratio(1, 4),
            r.poisson_tol == T::ratio(1, 100000),
            r.poisson_max_it == 4000,
            r.threads == 0,
            r.solver@ == "auto"@,
            r.view@ == "save"@,
            r.outdir@ == "output"@,
    {
        Config {
            scenario: "cavity".to_owned(),
            n: 129,
            re: T::from_ratio(5000, 1),
            u_lid: T::from_ratio(1, 1),
            l: T::from_ratio(1, 1),
            t_end: T::from_ratio(30, 1),
            cfl: T::from_ratio(2, 5),
            out_every: T::from_ratio(1, 4),
            poisson_tol: T::from_ratio(1, 100000),
            poisson_max_it: 4000,
            threads: 0,
            solver: "auto".to_owned(),
            view: "save".to_owned(),
            outdir: "output".to_owned(),
        }
    }
}

/// The texts of a list of arguments.
pub open spec fn texts(args: Seq<String>) -> Seq<Seq<char>> {
    args.map_values(|s: String| s@)
}

/// The number of flags among the arguments: the first argument is the name of the
/// program, then flags and values alternate.
pub open spec fn flags(args: Seq<Seq<char>>) -> int {
    args.len() as int / 2
}

/// The flag number `k`, counted from zero.
pub open spec fn flag_at(args: Seq<Seq<char>>, k: int) -> Seq<char> {
    args[2 * k + 1]
}

/// Whether a flag is given, with or without a value that can be used.
pub open spec fn given(args: Seq<Seq<char>>, flag: Seq<char>) -> bool {
    exists|k: int| 0 <= k < flags(args) && #[trigger] flag_at(args, k) == flag
}

/// What `read` makes of the value of the flag number `k`; nothing where that is
/// another flag or the value is missing.
pub open spec fn value_at<V>(
    args: Seq<Seq<char>>,
    flag: Seq<char>,
    read: spec_fn(Seq<char>) -> Option<V>,
    k: int,
) -> Option<V> {
    if flag_at(args, k) == flag && 2 * k + 2 < args.len() {
        read(args[2 * k + 2])
    } else {
        None
    }
}

/// What the first `count` flags make of an option that starts out as `init`: the
/// last value that can be read stands.
pub open spec fn chosen<V>(
    args: Seq<Seq<char>>,
    flag: Seq<char>,
    read: spec_fn(Seq<char>) -> Option<V>,
    init: V,
    count: int,
) -> V
    decreases count,
{
    if count <= 0 {
        init
    } else {
        match value_at(args, flag, read, count - 1) {
            Some(v) => v,
            None => chosen(args, flag, read, init, count - 1),
        }
    }
}

/// A text option.
pub open spec fn text_option(
    args: Seq<Seq<char>>,
    flag: Seq<char>,
    init: Seq<char>,
) -> Seq<char> {
    chosen(args, flag, |s: Seq<char>| Some(s), init, flags(args))
}

/// A count option.
pub open spec fn count_option(args: Seq<Seq<char>>, flag: Seq<char>, init: usize) -> usize {
    chosen(args, flag, |s: Seq<char>| counted(s), init, flags(args))
}

/// An option that is a number.
pub open spec fn number_option<T: Scalar>(
    args: Seq<Seq<char>>,
    flag: Seq<char>,
    init: T,
) -> T {
    chosen(args, flag, |s: Seq<char>| T::parsed(s), init, flags(args))
}

/// The scenario that the arguments ask for.
pub open spec fn scenario_of(args: Seq<Seq<char>>) -> Seq<char> {
    text_option(args, "--scenario"@, "cavity"@)
}

/// Whether a flag that was not given takes the default of the cylinder scenario.
pub open spec fn cylinder_default(args: Seq<Seq<char>>, flag: Seq<char>) -> bool {
    scenario_of(args) == "cylinder"@ && !given(args, flag)
}

fn is_given(args: &Vec<String>, flag: &str) -> (r: bool)
    ensures
        r == given(texts(args@), flag@),
{
    let mut i: usize = 1;
    let ghost all = texts(args@);
    while i < args.len()
        invariant
            all == texts(args@),
            i % 2 == 1,
            i <= args.len() + 1,
            forall|k: int| 0 <= k < i as int / 2 ==> #[trigger] flag_at(all, k) != flag@,
        decreases args.len() + 1 - i,
    {
        let ghost k = i as int / 2;
        assert(flag_at(all, k) == args@[i as int]@);
        if reads(&args[i], flag) {
            assert(0 <= k < flags(all));
            return true;
        }
        if i + 1 >= args.len() {
            return false;
        }
        i = i + 2;
    }
    false
}

fn choose_text(args: &Vec<String>, flag: &str, init: &str) -> (r: String)
    ensures
        r@ == text_option(texts(args@), flag@, init@),
{
    let mut r: String = init.to_owned();
    let mut i: usize = 1;
    let ghost all = texts(args@);
    let ghost read = |s: Seq<char>| Some(s);
    while i < args.len() && args.len() - i > 1
        invariant
            all == texts(args@),
            read == (|s: Seq<char>| Some(s)),
            i % 2 == 1,
            i <= args.len() + 1,
            r@ == chosen(all, flag@, read, init@, i as int / 2),
        decreases args.len() + 1 - i,
    {
        if reads(&args[i], flag) {
            r = args[i + 1].clone();
        }
        assert(flag_at(all, i as int / 2) == args@[i as int]@);
        assert(all[i + 1] == args@[i + 1]@);
        i = i + 2;
    }
    proof {
        lemma_last_flag(all, flag@, read, init@, i as int);
    }
    r
}

fn choose_count(args: &Vec<String>, flag: &str, init: usize) -> (r: usize)
    ensures
        r == count_option(texts(args@), flag@, init),
{
    let mut r: usize = init;
    let mut i: usize = 1;
    let ghost all = texts(args@);
    let ghost read = |s: Seq<char>| counted(s);
    while i < args.len() && args.len() - i > 1
        invariant
            all == texts(args@),
            read == (|s: Seq<char>| counted(s)),
            i % 2 == 1,
            i <= args.len() + 1,
            r == chosen(all, flag@, read, init, i as int / 2),
        decreases args.len() + 1 - i,
    {
        if reads(&args[i], flag) {
            match parse_count(&args[i + 1]) {
                Some(v) => {
                    r = v;
                },
                None => {},
            }
        }
        assert(flag_at(all, i as int / 2) == args@[i as int]@);
        assert(all[i + 1] == args@[i + 1]@);
        i = i + 2;
    }
    proof {
        lemma_last_flag(all, flag@, read, init, i as int);
    }
    r
}

fn choose_number<T: Scalar>(args: &Vec<String>, flag: &str, init: T) -> (r: T)
    ensures
        r == number_option(texts(args@), flag@, init),
{
    let mut r: T = init;
    let mut i: usize = 1;
    let ghost all = texts(args@);
    let ghost read = |s: Seq<char>| T::parsed(s);
    while i < args.len() && args.len() - i > 1
        invariant
            all == texts(args@),
            read == (|s: Seq<char>| T::parsed(s)),
            i % 2 == 1,
            i <= args.len() + 1,
            r == chosen(all, flag@, read, init, i as int / 2),
        decreases args.len() + 1 - i,
    {
        if reads(&args[i], flag) {
            match T::parse(&args[i + 1]) {
                Some(v) => {
                    r = v;
                },
                None => {},
            }
        }
        assert(flag_at(all, i as int / 2) == args@[i as int]@);
        assert(all[i + 1] == args@[i + 1]@);
        i = i + 2;
    }
    proof {
        lemma_last_flag(all, flag@, read, init, i as int);
    }
    r
}

/// A last flag without a value changes nothing.
proof fn lemma_last_flag<V>(
    args: Seq<Seq<char>>,
    flag: Seq<char>,
    read: spec_fn(Seq<char>) -> Option<V>,
    init: V,
    i: int,
)
    requires
        i % 2 == 1,
        0 <= i <= args.len() + 1,
        i + 1 >= args.len(),
    ensures
        chosen(args, flag, read, init, i / 2) == chosen(args, flag, read, init, flags(args)),
{
    if i < args.len() {
        assert(flags(args) == i / 2 + 1);
    } else {
        assert(flags(args) == i / 2);
    }
}

impl<T: Scalar> Config<T> {
    /// Reads the command line; `args[0]` is the name of the program. Each flag takes
    /// one value. A value that cannot be read leaves the option as it was; a flag that
    /// is not given at all takes the default of the scenario.
    pub fn from_args(args: &Vec<String>) -> (r: Config<T>)
        ensures
            r.scenario@ == scenario_of(texts(args@)),
            r.n == if cylinder_default(texts(args@), "--n"@) {
                65
            } else {
                count_option(texts(args@), "--n"@, 129)
            },
            r.re == if cylinder_default(texts(args@), "--re"@) {
                whole::<T>(150)
            } else {
                number_option(texts(args@), "--re"@, whole::<T>(5000))
            },
            r.t_end == if cylinder_default(texts(args@), "--tend"@) {
                whole::<T>(60)
            } else {
                number_option(texts(args@), "--tend"@, whole::<T>(30))
            },
            r.out_every == if cylinder_default(texts(args@), "--out-every"@) {
                T::ratio(1, 2)
            } else {
                number_option(texts(args@), "--out-every"@, T::ratio(1, 4))
            },
            r.cfl == number_option(texts(args@), "--cfl"@, T::ratio(2, 5)),
            r.threads == count_option(texts(args@), "--threads"@, 0),
            r.solver@ == text_option(texts(args@), "--solver"@, "auto"@),
            r.view@ == text_option(texts(args@), "--view"@, "save"@),
            r.outdir@ == text_option(texts(args@), "--outdir"@, "output"@),
            r.u_lid == whole::<T>(1),
            r.l == whole::<T>(1),
            r.poisson_tol == T::ratio(1, 100000),
            r.poisson_max_it == 4000,
    {
        let mut cfg: Config<T> = Config::default();
        cfg.scenario = choose_text(args, "--scenario", "cavity");
        cfg.n = choose_count(args, "--n", cfg.n);
        cfg.re = choose_number(args, "--re", cfg.re);
        cfg.t_end = choose_number(args, "--tend", cfg.t_end);
        cfg.cfl = choose_number(args, "--cfl", cfg.cfl);
        cfg.out_every = choose_number(args, "--out-every", cfg.out_every);
        cfg.threads = choose_count(args, "--threads", cfg.threads);
        cfg.solver = choose_text(args, "--solver", "auto");
        cfg.view = choose_text(args, "--view", "save");
        cfg.outdir = choose_text(args, "--outdir", "output");
        if reads(&cfg.scenario, "cylinder") {
            if !is_given(args, "--n") {
                cfg.n = 65;
            }
            if !is_given(args, "--re") {
                cfg.re = T::from_ratio(150, 1);
            }
            if !is_given(args, "--tend") {
                cfg.t_end = T::from_ratio(60, 1);
            }
            if !is_given(args, "--out-every") {
                cfg.out_every = T::from_ratio(1, 2);
            }
        }
        cfg
    }
}

} // verus!
