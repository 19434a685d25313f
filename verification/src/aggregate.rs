//! The aggregate generator: a closed sum over the declared tags.
//!
//! Given the same specification the tag family was generated from, the
//! aggregate generator derives one handler-parameter name per tag — the
//! tag identifier in snake_case with the fixed suffix `_handler` — and the
//! resulting main error type forms a closed sum with one arm per tag.
//! Every tag wrapper lifts into the sum, and consumption is exhaustive:
//! the caller supplies exactly one handler per declared tag, bound by
//! name, in any order, and the one handler bound to the arm actually
//! present is invoked with the unwrapped underlying error.

use vstd::prelude::*;
use vstd::string::StringExecFns;

use crate::erased::ErasedError;
use crate::erased::TagError;
use crate::family::Registry;
use crate::naming::spec_to_snake_case;
use crate::spec_model::Visibility;

verus! {

/// The snake_case form of an identifier, taking the string by value;
/// e.g. `"FooBar"` becomes `"foo_bar"`.
pub fn to_snake_case(s: String) -> (r: String)
    ensures
        r@ == spec_to_snake_case(s@),
{
    crate::naming::to_snake_case(s.as_str())
}

/// The derived handler-parameter name of a tag identifier: its snake_case
/// form with the fixed suffix `_handler`.
pub open spec fn spec_param_name(name: Seq<char>) -> Seq<char> {
    spec_to_snake_case(name) + "_handler"@
}

/// The aggregate descriptor: the sum type's name and visibility, and the
/// derived handler-parameter name of each arm, in declaration order.
pub struct AggregateDescriptor {
    pub name: String,
    pub visibility: Visibility,
    pub params: Vec<String>,
}

/// Builds the aggregate descriptor over a generated tag family: one arm
/// per tag, each with its derived handler-parameter name.
pub fn generate(visibility: Visibility, name: String, reg: &Registry) -> (r: AggregateDescriptor)
    ensures
        r.name == name,
        r.visibility == visibility,
        r.params@.len() == reg@.len(),
        forall|i: int|
            0 <= i < reg@.len() ==> (#[trigger] r.params@[i])@ == spec_param_name(
                reg@[i].name@,
            ),
{
    let n = reg.len();
    let mut params: Vec<String> = Vec::new();
    let mut i: usize = 0;
    while i < n
        invariant
            i <= n,
            n == reg@.len(),
            params@.len() == i,
            forall|k: int|
                0 <= k < i ==> (#[trigger] params@[k])@ == spec_param_name(reg@[k].name@),
        decreases n - i,
    {
        let d = reg.get(i);
        let base = crate::naming::to_snake_case(d.name.as_str());
        let p = base.concat("_handler");
        params.push(p);
        i += 1;
    }
    AggregateDescriptor { name, visibility, params }
}

/// The aggregate main error: a closed sum with one arm per declared tag.
/// The arm actually present is the one named by the wrapper's own tag.
/// Once consumed, the value is gone; no other operation mutates it.
pub struct MainError {
    pub wrapped: TagError,
}

impl From<TagError> for MainError {
    /// The lifting conversion: wraps a tag's instance in the
    /// corresponding arm of the sum. Total; invoked implicitly at
    /// error-propagation boundaries.
    fn from(e: TagError) -> (r: MainError)
        ensures
            r == (MainError { wrapped: e }),
    {
        MainError { wrapped: e }
    }
}

impl vstd::std_specs::convert::FromSpecImpl<TagError> for MainError {
    open spec fn obeys_from_spec() -> bool {
        true
    }

    open spec fn from_spec(e: TagError) -> MainError {
        MainError { wrapped: e }
    }
}

/// The views of a parameter-name list.
pub open spec fn param_views(ps: Seq<String>) -> Seq<Seq<char>> {
    ps.map_values(|p: String| p@)
}

/// The names a handler set binds, in order.
pub open spec fn handler_names<F>(hs: Seq<(String, F)>) -> Seq<Seq<char>> {
    hs.map_values(|e: (String, F)| e.0@)
}

/// How often the name `x` occurs in `names`.
pub open spec fn count_occ(names: Seq<Seq<char>>, x: Seq<char>) -> nat
    decreases names.len(),
{
    if names.len() == 0 {
        0
    } else {
        count_occ(names.drop_last(), x) + (if names.last() == x {
            1nat
        } else {
            0nat
        })
    }
}

/// The position of the first occurrence of `x` in `names`.
pub open spec fn first_occ(names: Seq<Seq<char>>, x: Seq<char>) -> int
    decreases names.len(),
{
    if names.len() == 0 {
        0
    } else if names[0] == x {
        0
    } else {
        1 + first_occ(names.drop_first(), x)
    }
}

/// The handler set matches the arm set one-to-one: the same size, and
/// every name bound exactly as often as it is declared.
pub open spec fn spec_handlers_match<F>(params: Seq<String>, hs: Seq<(String, F)>) -> bool {
    &&& hs.len() == params.len()
    &&& forall|x: Seq<char>| count_occ(param_views(params), x) == count_occ(handler_names(hs), x)
}

proof fn lemma_count_occ_zero(names: Seq<Seq<char>>, x: Seq<char>)
    requires
        forall|i: int| 0 <= i < names.len() ==> names[i] != x,
    ensures
        count_occ(names, x) == 0,
    decreases names.len(),
{
    if names.len() > 0 {
        lemma_count_occ_zero(names.drop_last(), x);
    }
}

proof fn lemma_count_occ_positive(names: Seq<Seq<char>>, x: Seq<char>, i: int)
    requires
        0 <= i < names.len(),
        names[i] == x,
    ensures
        count_occ(names, x) >= 1,
    decreases names.len(),
{
    if i < names.len() - 1 {
        lemma_count_occ_positive(names.drop_last(), x, i);
    }
}

proof fn lemma_count_occ_two(names: Seq<Seq<char>>, x: Seq<char>, i: int, j: int)
    requires
        0 <= i < j < names.len(),
        names[i] == x,
        names[j] == x,
    ensures
        count_occ(names, x) >= 2,
    decreases names.len(),
{
    if j == names.len() - 1 {
        lemma_count_occ_positive(names.drop_last(), x, i);
    } else {
        lemma_count_occ_two(names.drop_last(), x, i, j);
    }
}

proof fn lemma_count_occ_one_distinct(names: Seq<Seq<char>>, t: int)
    requires
        0 <= t < names.len(),
        forall|i: int, k: int| 0 <= i < k < names.len() ==> names[i] != names[k],
    ensures
        count_occ(names, names[t]) == 1,
    decreases names.len(),
{
    let x = names[t];
    if t == names.len() - 1 {
        assert forall|i: int| 0 <= i < names.drop_last().len() implies names.drop_last()[i]
            != x by {}
        lemma_count_occ_zero(names.drop_last(), x);
    } else {
        lemma_count_occ_one_distinct(names.drop_last(), t);
        assert(names.last() != x);
    }
}

proof fn lemma_first_occ_is(names: Seq<Seq<char>>, x: Seq<char>, j: int)
    requires
        0 <= j < names.len(),
        names[j] == x,
        forall|i: int| 0 <= i < j ==> names[i] != x,
    ensures
        first_occ(names, x) == j,
    decreases names.len(),
{
    if j > 0 {
        assert(names[0] != x);
        assert forall|i: int| 0 <= i < j - 1 implies names.drop_first()[i] != x by {
            assert(names.drop_first()[i] == names[i + 1]);
        }
        assert(names.drop_first()[j - 1] == x);
        lemma_first_occ_is(names.drop_first(), x, j - 1);
    }
}

impl MainError {
    /// The arm actually present: the position of the tag whose wrapper
    /// was lifted.
    pub open spec fn arm(self) -> int {
        self.wrapped.tag as int
    }

    /// Moves the sum and dispatches on the arm actually present: the
    /// first handler bound to that arm's derived parameter name is
    /// invoked, exactly once, with the original unwrapped underlying
    /// error — not the wrapper — and its result comes back. The handler
    /// set must have been validated against the arm set (see
    /// [`handlers_match`]); a mismatched set is a defect, not a runtime
    /// condition.
    #[verifier::loop_isolation(false)]
    pub fn consume<R, F: FnOnce(ErasedError) -> R>(
        self,
        agg: &AggregateDescriptor,
        handlers: Vec<(String, F)>,
    ) -> (r: R)
        requires
            0 <= self.arm() < agg.params@.len(),
            spec_handlers_match(agg.params@, handlers@),
            forall|i: int, e: ErasedError|
                0 <= i < handlers@.len() ==> #[trigger] call_requires(handlers@[i].1, (e,)),
        ensures
            ({
                let x = agg.params@[self.arm()]@;
                let j = first_occ(handler_names(handlers@), x);
                &&& 0 <= j < handlers@.len()
                &&& handlers@[j].0@ == x
                &&& call_ensures(handlers@[j].1, (self.wrapped.inner,), r)
            }),
    {
        let MainError { wrapped } = self;
        let TagError { tag, inner } = wrapped;
        let pname: &String = &agg.params[tag];
        let ghost x = pname@;
        let ghost hnames = handler_names(handlers@);
        proof {
            assert(param_views(agg.params@)[tag as int] == x);
            lemma_count_occ_positive(param_views(agg.params@), x, tag as int);
            assert(count_occ(hnames, x) >= 1);
        }
        let len = handlers.len();
        let mut live = handlers;
        let mut j: usize = 0;
        while j < len
            invariant
                j <= len,
                live@ == handlers@,
                forall|i: int| 0 <= i < j ==> hnames[i] != x,
            decreases len - j,
        {
            let pair = &live[j];
            if pair.0.eq(pname) {
                proof {
                    assert(handlers@[j as int].0@ == x);
                    assert(hnames[j as int] == handlers@[j as int].0@);
                    lemma_first_occ_is(hnames, x, j as int);
                }
                let (_name, f) = live.remove(j);
                return f(inner);
            }
            j += 1;
        }
        proof {
            lemma_count_occ_zero(hnames, x);
            assert(false);
        }
        vstd::pervasive::unreached()
    }
}

/// The exhaustiveness check ahead of any runtime use: whether the handler
/// set binds exactly the declared arms, one-to-one by name, in any order.
pub fn handlers_match<F>(agg: &AggregateDescriptor, handlers: &Vec<(String, F)>) -> (r: bool)
    ensures
        r == spec_handlers_match(agg.params@, handlers@),
{
    let ghost ps = param_views(agg.params@);
    let ghost hn = handler_names(handlers@);
    if handlers.len() != agg.params.len() {
        return false;
    }
    let n = agg.params.len();
    let mut i: usize = 0;
    while i < n
        invariant
            i <= n,
            n == agg.params@.len(),
            n == handlers@.len(),
            ps == param_views(agg.params@),
            hn == handler_names(handlers@),
            forall|k: int| 0 <= k < i ==> count_occ(ps, #[trigger] ps[k]) == count_occ(hn, ps[k]),
        decreases n - i,
    {
        let x = &agg.params[i];
        let cp = count_params(&agg.params, x);
        let ch = count_handlers(handlers, x);
        if cp != ch {
            proof {
                assert(ps[i as int] == x@);
            }
            return false;
        }
        i += 1;
    }
    let mut i: usize = 0;
    while i < n
        invariant
            i <= n,
            n == agg.params@.len(),
            n == handlers@.len(),
            ps == param_views(agg.params@),
            hn == handler_names(handlers@),
            forall|k: int| 0 <= k < n ==> count_occ(ps, #[trigger] ps[k]) == count_occ(hn, ps[k]),
            forall|k: int| 0 <= k < i ==> count_occ(ps, #[trigger] hn[k]) == count_occ(hn, hn[k]),
        decreases n - i,
    {
        let pair = &handlers[i];
        let x = &pair.0;
        let cp = count_params(&agg.params, x);
        let ch = count_handlers(handlers, x);
        if cp != ch {
            proof {
                assert(hn[i as int] == x@);
            }
            return false;
        }
        i += 1;
    }
    proof {
        assert forall|x: Seq<char>| count_occ(ps, x) == count_occ(hn, x) by {
            if exists|k: int| 0 <= k < n && ps[k] == x {
                let k = choose|k: int| 0 <= k < n && ps[k] == x;
                assert(count_occ(ps, ps[k]) == count_occ(hn, ps[k]));
            } else if exists|k: int| 0 <= k < n && hn[k] == x {
                let k = choose|k: int| 0 <= k < n && hn[k] == x;
                assert(count_occ(ps, hn[k]) == count_occ(hn, hn[k]));
            } else {
                lemma_count_occ_zero(ps, x);
                lemma_count_occ_zero(hn, x);
            }
        }
    }
    true
}

fn count_params(ps: &Vec<String>, x: &String) -> (r: usize)
    ensures
        r == count_occ(param_views(ps@), x@),
{
    let ghost views = param_views(ps@);
    let n = ps.len();
    let mut i: usize = 0;
    let mut c: usize = 0;
    while i < n
        invariant
            i <= n,
            n == ps@.len(),
            views == param_views(ps@),
            c <= i,
            c == count_occ(views.take(i as int), x@),
        decreases n - i,
    {
        proof {
            assert(views.take(i + 1).drop_last() =~= views.take(i as int));
            assert(views.take(i + 1).last() == views[i as int]);
        }
        if ps[i].eq(x) {
            c += 1;
        }
        i += 1;
    }
    proof {
        assert(views.take(n as int) =~= views);
    }
    c
}

fn count_handlers<F>(hs: &Vec<(String, F)>, x: &String) -> (r: usize)
    ensures
        r == count_occ(handler_names(hs@), x@),
{
    let ghost views = handler_names(hs@);
    let n = hs.len();
    let mut i: usize = 0;
    let mut c: usize = 0;
    while i < n
        invariant
            i <= n,
            n == hs@.len(),
            views == handler_names(hs@),
            c <= i,
            c == count_occ(views.take(i as int), x@),
        decreases n - i,
    {
        proof {
            assert(views.take(i + 1).drop_last() =~= views.take(i as int));
            assert(views.take(i + 1).last() == views[i as int]);
        }
        let pair = &hs[i];
        if pair.0.eq(x) {
            c += 1;
        }
        i += 1;
    }
    proof {
        assert(views.take(n as int) =~= views);
    }
    c
}

/// Law: consumption is exhaustive and selective. When the derived
/// parameter names are pairwise distinct, the handler selected for the arm
/// actually present is the unique handler bound to that arm's name: no
/// other handler in the set shares it.
pub proof fn lemma_exhaustive_selection<F>(params: Seq<String>, hs: Seq<(String, F)>, t: int)
    requires
        spec_handlers_match(params, hs),
        0 <= t < params.len(),
        forall|i: int, k: int|
            0 <= i < k < params.len() ==> param_views(params)[i] != param_views(params)[k],
    ensures
        ({
            let x = params[t]@;
            let j = first_occ(handler_names(hs), x);
            &&& 0 <= j < hs.len()
            &&& hs[j].0@ == x
            &&& forall|i: int| 0 <= i < hs.len() && i != j ==> hs[i].0@ != x
        }),
{
    let x = params[t]@;
    let ps = param_views(params);
    let hn = handler_names(hs);
    lemma_count_occ_one_distinct(ps, t);
    assert(count_occ(hn, x) == 1);
    assert(exists|i: int| 0 <= i < hn.len() && hn[i] == x) by {
        if forall|i: int| 0 <= i < hn.len() ==> hn[i] != x {
            lemma_count_occ_zero(hn, x);
        }
    }
    let w = choose|i: int| 0 <= i < hn.len() && hn[i] == x;
    assert forall|i: int, k: int| 0 <= i < k < hn.len() implies !(hn[i] == x && hn[k] == x) by {
        if hn[i] == x && hn[k] == x {
            lemma_count_occ_two(hn, x, i, k);
        }
    }
    let j = first_occ(hn, x);
    assert forall|i: int| 0 <= i < w implies hn[i] != x by {
        if hn[i] == x {
            assert(!(hn[i] == x && hn[w] == x));
        }
    }
    lemma_first_occ_is(hn, x, w);
    assert(j == w);
    assert forall|i: int| 0 <= i < hs.len() && i != j implies hs[i].0@ != x by {
        if i < j {
            assert(hn[i] != x);
        } else if hn[i] == x {
            lemma_count_occ_two(hn, x, j, i);
        }
    }
}

} // verus!
