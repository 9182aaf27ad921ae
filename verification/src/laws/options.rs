//! How the command line sets an option.
use crate::config::{
    chosen, count_option, cylinder_default, flag_at, flags, given, number_option, scenario_of,
    text_option, value_at,
};
use crate::scalar::Scalar;
use crate::text::counted;
use vstd::prelude::*;

verus! {

/// A flag that is not given leaves its option as it was.
pub proof fn law_absent_flag<V>(
    args: Seq<Seq<char>>,
    flag: Seq<char>,
    read: spec_fn(Seq<char>) -> Option<V>,
    init: V,
    count: int,
)
    requires
        !given(args, flag),
        count <= flags(args),
    ensures
        chosen(args, flag, read, init, count) == init,
    decreases count,
{
    if count > 0 {
        assert(flag_at(args, count - 1) != flag);
        law_absent_flag(args, flag, read, init, count - 1);
    }
}

/// The last value that can be read stands, whatever stood before it.
pub proof fn law_last_value_stands<V>(
    args: Seq<Seq<char>>,
    flag: Seq<char>,
    read: spec_fn(Seq<char>) -> Option<V>,
    init: V,
    k: int,
    count: int,
)
    requires
        0 <= k < count,
        value_at(args, flag, read, k) is Some,
        forall|c: int| k < c < count ==> #[trigger] value_at(args, flag, read, c) is None,
    ensures
        chosen(args, flag, read, init, count) == value_at(args, flag, read, k)->0,
    decreases count,
{
    if k < count - 1 {
        assert(value_at(args, flag, read, count - 1) is None);
        law_last_value_stands(args, flag, read, init, k, count - 1);
    }
}

/// Where no value can be read, the option stays as it was.
pub proof fn law_unreadable_values<V>(
    args: Seq<Seq<char>>,
    flag: Seq<char>,
    read: spec_fn(Seq<char>) -> Option<V>,
    init: V,
    count: int,
)
    requires
        forall|c: int| 0 <= c < count ==> #[trigger] value_at(args, flag, read, c) is None,
    ensures
        chosen(args, flag, read, init, count) == init,
    decreases count,
{
    if count > 0 {
        assert(value_at(args, flag, read, count - 1) is None);
        law_unreadable_values(args, flag, read, init, count - 1);
    }
}

proof fn lemma_prefix<V>(
    args: Seq<Seq<char>>,
    more: Seq<Seq<char>>,
    flag: Seq<char>,
    read: spec_fn(Seq<char>) -> Option<V>,
    init: V,
    count: int,
)
    requires
        args.is_prefix_of(more),
        2 * count < args.len(),
    ensures
        chosen(args, flag, read, init, count) == chosen(more, flag, read, init, count),
    decreases count,
{
    if count > 0 {
        lemma_prefix(args, more, flag, read, init, count - 1);
        assert(args[2 * count - 1] == more[2 * count - 1]);
        assert(args[2 * count] == more[2 * count]);
    }
}

proof fn lemma_pair<V>(
    args: Seq<Seq<char>>,
    flag: Seq<char>,
    value: Seq<char>,
    name: Seq<char>,
    read: spec_fn(Seq<char>) -> Option<V>,
    init: V,
)
    requires
        args.len() % 2 == 1,
    ensures
        ({
            let more = args.push(flag).push(value);
            let before = chosen(args, name, read, init, flags(args));
            chosen(more, name, read, init, flags(more)) == if flag == name && read(value) is Some {
                read(value)->0
            } else {
                before
            }
        }),
{
    let more = args.push(flag).push(value);
    let k = flags(args);
    assert(flags(more) == k + 1);
    assert(2 * k + 1 == args.len());
    lemma_prefix(args, more, name, read, init, k);
}

/// One more flag with its value, behind a command line whose flags all have theirs: it sets
/// the option of its name, where the value can be read, and no other. A command line that is
/// the name of the program alone sets none.
pub proof fn law_one_more_option<T: Scalar>(
    args: Seq<Seq<char>>,
    flag: Seq<char>,
    value: Seq<char>,
    name: Seq<char>,
    text: Seq<char>,
    count: usize,
    number: T,
)
    requires
        args.len() % 2 == 1,
    ensures
        ({
            let more = args.push(flag).push(value);
            let own = flag == name;
            &&& text_option(more, name, text) == if own {
                value
            } else {
                text_option(args, name, text)
            }
            &&& count_option(more, name, count) == if own && counted(value) is Some {
                counted(value)->0
            } else {
                count_option(args, name, count)
            }
            &&& number_option(more, name, number) == if own && T::parsed(value) is Some {
                T::parsed(value)->0
            } else {
                number_option(args, name, number)
            }
            &&& given(more, name) <==> own || given(args, name)
        }),
        args.len() == 1 ==> {
            &&& text_option(args, name, text) == text
            &&& count_option(args, name, count) == count
            &&& number_option(args, name, number) == number
            &&& !given(args, name)
        },
{
    let more = args.push(flag).push(value);
    lemma_pair(args, flag, value, name, |s: Seq<char>| Some(s), text);
    lemma_pair(args, flag, value, name, |s: Seq<char>| counted(s), count);
    lemma_pair(args, flag, value, name, |s: Seq<char>| T::parsed(s), number);
    let k = flags(args);
    assert(flags(more) == k + 1 && 2 * k + 1 == args.len());
    assert(flag_at(more, k) == flag);
    if given(more, name) {
        let c = choose|c: int| 0 <= c < flags(more) && #[trigger] flag_at(more, c) == name;
        if c < k {
            assert(flag_at(args, c) == name);
        }
    }
    if given(args, name) {
        let c = choose|c: int| 0 <= c < flags(args) && #[trigger] flag_at(args, c) == name;
        assert(flag_at(more, c) == name);
    }
}

/// A last flag without a value sets no option, but it is given.
pub proof fn law_flag_without_value<T: Scalar>(
    args: Seq<Seq<char>>,
    flag: Seq<char>,
    name: Seq<char>,
    text: Seq<char>,
    count: usize,
    number: T,
)
    requires
        args.len() % 2 == 1,
    ensures
        ({
            let more = args.push(flag);
            &&& text_option(more, name, text) == text_option(args, name, text)
            &&& count_option(more, name, count) == count_option(args, name, count)
            &&& number_option(more, name, number) == number_option(args, name, number)
            &&& given(more, flag)
        }),
{
    let more = args.push(flag);
    let k = flags(args);
    assert(flags(more) == k + 1 && 2 * k + 1 == args.len());
    lemma_prefix(args, more, name, |s: Seq<char>| Some(s), text, k);
    lemma_prefix(args, more, name, |s: Seq<char>| counted(s), count, k);
    lemma_prefix(args, more, name, |s: Seq<char>| T::parsed(s), number, k);
    assert(flag_at(more, k) == flag);
}

/// The scenario is the last one asked for, the cavity if none is. The defaults of the cylinder
/// are for its scenario and for flags that are not given.
pub proof fn law_scenario(
    args: Seq<Seq<char>>,
    flag: Seq<char>,
    value: Seq<char>,
    name: Seq<char>,
)
    requires
        args.len() % 2 == 1,
    ensures
        args.len() == 1 ==> scenario_of(args) == "cavity"@,
        scenario_of(args.push(flag).push(value)) == if flag == "--scenario"@ {
            value
        } else {
            scenario_of(args)
        },
        given(args, name) ==> !cylinder_default(args, name),
        scenario_of(args) != "cylinder"@ ==> !cylinder_default(args, name),
        scenario_of(args) == "cylinder"@ && !given(args, name) ==> cylinder_default(args, name),
{
    lemma_pair(args, flag, value, "--scenario"@, |s: Seq<char>| Some(s), "cavity"@);
}

} // verus!
