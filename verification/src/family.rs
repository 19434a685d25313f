//! The tag family generator and the dispatch chain it fixes.
//!
//! From a validated specification the generator builds one descriptor per
//! declared tag, in declaration order. A tag is identified by its position
//! in the family. Each descriptor carries a sibling chain: the tags its
//! identification/dispatch operation delegates to, in order, after its own
//! identity test fails. Delegation is recursive — a sibling's own chain is
//! attempted in turn — and every tag is attempted at most once, so the
//! attempted chain is the depth-first order over the configured sibling
//! edges, starting at the tag itself.
//!
//! A freshly generated family gives every tag an empty chain: distinct tags
//! never recognise one another's errors unless a chain is configured
//! explicitly. (Delegating to every other declared tag would also have been
//! a defensible default; the narrow default is chosen so that cross-tag
//! recognition is always an explicit decision.)

use vstd::prelude::*;

use crate::erased::ErasedError;
use crate::erased::TagError;
use crate::spec_model::Specification;
use crate::spec_model::TagSpec;
use crate::spec_model::Visibility;

verus! {

/// One generated tag: its identifier, its visibility, and the sibling
/// chain its dispatch operation attempts after its own identity test
/// fails. Chain entries name sibling tags by their position in the family.
pub struct TagDescriptor {
    pub name: String,
    pub visibility: Visibility,
    pub chain: Vec<usize>,
}

/// The generated tag family, in declaration order.
pub struct Registry {
    tags: Vec<TagDescriptor>,
}

/// The number of `false` entries of a visited map.
pub open spec fn count_false(v: Seq<bool>) -> nat
    decreases v.len(),
{
    if v.len() == 0 {
        0
    } else {
        (if v[0] {
            0nat
        } else {
            1nat
        }) + count_false(v.drop_first())
    }
}

proof fn lemma_count_false_update(v: Seq<bool>, i: int)
    requires
        0 <= i < v.len(),
        !v[i],
    ensures
        count_false(v.update(i, true)) + 1 == count_false(v),
    decreases v.len(),
{
    if i == 0 {
        assert(v.update(0, true).drop_first() =~= v.drop_first());
    } else {
        lemma_count_false_update(v.drop_first(), i - 1);
        assert(v.update(i, true).drop_first() =~= v.drop_first().update(i - 1, true));
        assert(v.update(i, true)[0] == v[0]);
    }
}

/// The depth-first attempt order over the sibling edges: the head of the
/// worklist is attempted if it names a tag not yet visited, and its own
/// chain is prepended to the rest of the worklist; entries out of range or
/// already visited are skipped.
pub open spec fn attempt_order_from(
    reg: Seq<TagDescriptor>,
    work: Seq<usize>,
    visited: Seq<bool>,
) -> Seq<usize>
    decreases count_false(visited), work.len(),
        via attempt_order_from_decreases
{
    if work.len() == 0 {
        Seq::empty()
    } else {
        let t = work[0];
        if (t as int) < reg.len() && (t as int) < visited.len() && !visited[t as int] {
            seq![t] + attempt_order_from(
                reg,
                reg[t as int].chain@ + work.drop_first(),
                visited.update(t as int, true),
            )
        } else {
            attempt_order_from(reg, work.drop_first(), visited)
        }
    }
}

#[via_fn]
proof fn attempt_order_from_decreases(reg: Seq<TagDescriptor>, work: Seq<usize>, visited: Seq<bool>) {
    if work.len() > 0 {
        let t = work[0];
        if (t as int) < reg.len() && (t as int) < visited.len() && !visited[t as int] {
            lemma_count_false_update(visited, t as int);
        }
    }
}

/// All tag positions of a family of `n` tags except `i`, in declaration
/// order: the open-family sibling chain of tag `i`.
pub open spec fn all_but(n: int, i: int) -> Seq<usize> {
    Seq::new((n - 1) as nat, |j: int| (if j < i {
        j
    } else {
        j + 1
    }) as usize)
}

/// The ordered sequence of tags that tag `t`'s dispatch operation attempts
/// before giving up: `t` itself first, then its configured chain,
/// depth-first, each tag at most once.
pub open spec fn spec_attempted_chain(reg: Seq<TagDescriptor>, t: usize) -> Seq<usize> {
    attempt_order_from(reg, seq![t], Seq::new(reg.len(), |i: int| false))
}

impl View for Registry {
    type V = Seq<TagDescriptor>;

    closed spec fn view(&self) -> Seq<TagDescriptor> {
        self.tags@
    }
}

impl Registry {
    /// Builds the tag family from a validated specification: one
    /// descriptor per declared tag, in declaration order, each with an
    /// empty sibling chain.
    pub fn generate(input: Specification) -> (r: Registry)
        ensures
            r@.len() > 0,
            forall|i: int| 0 <= i < r@.len() ==> {
                &&& (#[trigger] r@[i]).name == input@[i].name
                &&& r@[i].visibility == input@[i].visibility
                &&& r@[i].chain@ == Seq::<usize>::empty()
            },
            r@.len() == input@.len(),
    {
        let ghost orig = input@;
        let mut rest = input.into_tags();
        let mut tags: Vec<TagDescriptor> = Vec::new();
        while rest.len() > 0
            invariant
                tags@.len() + rest@.len() == orig.len(),
                rest@ == orig.skip(tags@.len() as int),
                forall|i: int| 0 <= i < tags@.len() ==> {
                    &&& (#[trigger] tags@[i]).name == orig[i].name
                    &&& tags@[i].visibility == orig[i].visibility
                    &&& tags@[i].chain@ == Seq::<usize>::empty()
                },
            decreases rest@.len(),
        {
            let ghost k = tags@.len() as int;
            let ts = rest.remove(0);
            proof {
                assert(orig.skip(k)[0] == orig[k]);
                assert(orig.skip(k).remove(0) =~= orig.skip(k + 1));
            }
            let TagSpec { name, visibility } = ts;
            tags.push(TagDescriptor { name, visibility, chain: Vec::new() });
        }
        Registry { tags }
    }

    /// The number of tags in the family.
    pub fn len(&self) -> (r: usize)
        ensures
            r == self@.len(),
    {
        self.tags.len()
    }

    /// The descriptor of the tag at position `t`.
    pub fn get(&self, t: usize) -> (r: &TagDescriptor)
        requires
            t < self@.len(),
        ensures
            *r == self@[t as int],
    {
        &self.tags[t]
    }

    /// Fixes tag `t`'s sibling chain. The configuration is validated:
    /// when `t` or a chain entry does not name a tag of the family,
    /// nothing changes and `false` comes back.
    pub fn configure_chain(&mut self, t: usize, chain: Vec<usize>) -> (r: bool)
        ensures
            r == ((t as int) < old(self)@.len() && (forall|j: int|
                0 <= j < chain@.len() ==> (#[trigger] chain@[j] as int) < old(self)@.len())),
            final(self)@.len() == old(self)@.len(),
            r ==> {
                &&& final(self)@[t as int].name == old(self)@[t as int].name
                &&& final(self)@[t as int].visibility == old(self)@[t as int].visibility
                &&& final(self)@[t as int].chain == chain
                &&& forall|i: int|
                    0 <= i < old(self)@.len() && i != t ==> final(self)@[i] == old(self)@[i]
            },
            !r ==> final(self)@ == old(self)@,
    {
        let n = self.tags.len();
        if t >= n {
            return false;
        }
        let mut j: usize = 0;
        while j < chain.len()
            invariant
                j <= chain@.len(),
                forall|k: int| 0 <= k < j ==> (#[trigger] chain@[k] as int) < n as int,
                self@ == old(self)@,
                n == self@.len(),
                (t as int) < n as int,
            decreases chain@.len() - j,
        {
            if chain[j] >= n {
                return false;
            }
            j += 1;
        }
        self.tags[t].chain = chain;
        true
    }

    /// Configures the open-family policy: every tag delegates to every
    /// other declared tag, in declaration order. Under it any tag's
    /// dispatch recognises any tag's errors; it is the explicit
    /// alternative to the narrow default of empty chains.
    pub fn configure_open_family(&mut self)
        ensures
            final(self)@.len() == old(self)@.len(),
            forall|i: int|
                0 <= i < old(self)@.len() ==> {
                    &&& (#[trigger] final(self)@[i]).name == old(self)@[i].name
                    &&& final(self)@[i].visibility == old(self)@[i].visibility
                    &&& final(self)@[i].chain@ == all_but(old(self)@.len() as int, i)
                },
    {
        let n = self.tags.len();
        let mut t: usize = 0;
        while t < n
            invariant
                t <= n,
                n == self@.len(),
                n == old(self)@.len(),
                forall|i: int|
                    0 <= i < t ==> {
                        &&& (#[trigger] self@[i]).name == old(self)@[i].name
                        &&& self@[i].visibility == old(self)@[i].visibility
                        &&& self@[i].chain@ == all_but(n as int, i)
                    },
                forall|i: int| t <= i < n ==> self@[i] == old(self)@[i],
            decreases n - t,
        {
            let mut chain: Vec<usize> = Vec::new();
            let mut j: usize = 0;
            while j < n
                invariant
                    j <= n,
                    t < n,
                    n == self@.len(),
                    chain@.len() == (if j <= t {
                        j as int
                    } else {
                        j - 1
                    }),
                    chain@ == all_but(n as int, t as int).take(chain@.len() as int),
                decreases n - j,
            {
                if j != t {
                    let ghost prev = chain@;
                    chain.push(j);
                    proof {
                        assert(all_but(n as int, t as int)[prev.len() as int] == j);
                        assert(chain@ =~= all_but(n as int, t as int).take(
                            chain@.len() as int,
                        ));
                    }
                }
                j += 1;
            }
            proof {
                assert(chain@ =~= all_but(n as int, t as int));
            }
            self.configure_chain(t, chain);
            t += 1;
        }
    }

    /// The ordered chain of tags that tag `t`'s dispatch attempts, first
    /// to last.
    pub fn attempted_chain(&self, t: usize) -> (r: Vec<usize>)
        ensures
            r@ == spec_attempted_chain(self@, t),
    {
        let n = self.tags.len();
        let mut visited: Vec<bool> = Vec::new();
        while visited.len() < n
            invariant
                visited@.len() <= n,
                visited@ =~= Seq::new(visited@.len(), |i: int| false),
            decreases n - visited@.len(),
        {
            visited.push(false);
        }
        proof {
            assert(visited@ =~= Seq::new(self@.len(), |i: int| false));
        }
        let mut work: Vec<usize> = Vec::new();
        work.push(t);
        let mut order: Vec<usize> = Vec::new();
        proof {
            assert(work@ =~= seq![t]);
            assert(order@ + attempt_order_from(self@, work@, visited@) =~= spec_attempted_chain(
                self@,
                t,
            ));
        }
        while work.len() > 0
            invariant
                visited@.len() == n,
                n == self@.len(),
                order@ + attempt_order_from(self@, work@, visited@) == spec_attempted_chain(
                    self@,
                    t,
                ),
            decreases count_false(visited@), work@.len(),
        {
            let ghost old_work = work@;
            let ghost old_visited = visited@;
            let u = work.remove(0);
            proof {
                assert(old_work[0] == u);
                assert(work@ =~= old_work.drop_first());
            }
            if u < n && !visited[u] {
                proof {
                    lemma_count_false_update(old_visited, u as int);
                }
                visited[u] = true;
                order.push(u);
                let chain_len = self.tags[u].chain.len();
                let mut new_work: Vec<usize> = Vec::new();
                let mut j: usize = 0;
                while j < chain_len
                    invariant
                        j <= chain_len,
                        chain_len == self@[u as int].chain@.len(),
                        (u as int) < self@.len(),
                        new_work@ =~= self@[u as int].chain@.take(j as int),
                    decreases chain_len - j,
                {
                    let c = self.tags[u].chain[j];
                    new_work.push(c);
                    proof {
                        assert(self@[u as int].chain@.take(j + 1) =~= self@[
                            u as int
                        ].chain@.take(j as int).push(c));
                    }
                    j += 1;
                }
                proof {
                    assert(new_work@ =~= self@[u as int].chain@);
                }
                let mut k: usize = 0;
                let rest_len = work.len();
                while k < rest_len
                    invariant
                        k <= rest_len,
                        rest_len == work@.len(),
                        new_work@ =~= self@[u as int].chain@ + work@.take(k as int),
                        (u as int) < self@.len(),
                    decreases rest_len - k,
                {
                    let w = work[k];
                    new_work.push(w);
                    proof {
                        assert(work@.take(k + 1) =~= work@.take(k as int).push(w));
                        assert(self@[u as int].chain@ + work@.take(k + 1) =~= (self@[
                            u as int
                        ].chain@ + work@.take(k as int)).push(w));
                    }
                    k += 1;
                }
                proof {
                    assert(work@.take(rest_len as int) =~= work@);
                    assert(new_work@ =~= self@[u as int].chain@ + old_work.drop_first());
                }
                work = new_work;
                proof {
                    assert(attempt_order_from(self@, old_work, old_visited) =~= seq![u]
                        + attempt_order_from(self@, work@, visited@));
                }
            } else {
                proof {
                    assert(attempt_order_from(self@, old_work, old_visited)
                        == attempt_order_from(self@, work@, visited@));
                }
            }
        }
        proof {
            assert(attempt_order_from(self@, work@, visited@) =~= Seq::empty());
            assert(order@ =~= order@ + Seq::empty());
        }
        order
    }

    /// Whether tag `k` stands somewhere in the chain that tag `t`'s
    /// dispatch attempts.
    pub fn chain_contains(&self, t: usize, k: usize) -> (r: bool)
        ensures
            r == spec_attempted_chain(self@, t).contains(k),
    {
        let chain = self.attempted_chain(t);
        let len = chain.len();
        let mut i: usize = 0;
        while i < len
            invariant
                i <= len,
                len == chain@.len(),
                chain@ == spec_attempted_chain(self@, t),
                forall|j: int| 0 <= j < i ==> chain@[j] != k,
            decreases len - i,
        {
            if chain[i] == k {
                return true;
            }
            i += 1;
        }
        false
    }

    /// Runtime identification of an arbitrary erased error against tag
    /// `t`'s attempted chain. A plain error never matches; a tagged error
    /// matches exactly when its tag stands in the chain, and the match
    /// unwraps one layer: the wrapped inner error comes back.
    pub fn identify<'a>(&self, t: usize, err: &'a ErasedError) -> (r: Option<&'a ErasedError>)
        ensures
            match spec_identify(self@, t, *err) {
                Some(inner) => r matches Some(x) && *x == inner,
                None => r is None,
            },
    {
        match err {
            ErasedError::Plain(_) => None,
            ErasedError::Tagged(te) => {
                if self.chain_contains(t, te.tag) {
                    Some(&te.inner)
                } else {
                    None
                }
            },
        }
    }

    /// The identification/dispatch operation of tag `t`. When the error is
    /// recognised somewhere in `t`'s attempted chain, the handler is
    /// invoked exactly once with the unwrapped inner error and its result
    /// comes back; otherwise the handler is not invoked and the miss is
    /// silent: `None` comes back and nothing else happens.
    pub fn handle<R, F: FnOnce(ErasedError) -> R>(
        &self,
        t: usize,
        err: ErasedError,
        handler: F,
    ) -> (r: Option<R>)
        requires
            forall|e: ErasedError| call_requires(handler, (e,)),
        ensures
            match spec_identify(self@, t, err) {
                Some(inner) => r matches Some(rv) && call_ensures(handler, (inner,), rv),
                None => r is None,
            },
    {
        match err {
            ErasedError::Plain(_) => None,
            ErasedError::Tagged(te) => {
                if self.chain_contains(t, te.tag) {
                    let inner = te.inner;
                    Some(handler(inner))
                } else {
                    None
                }
            },
        }
    }
}

/// What tag `t`'s identification returns for an erased error: the wrapped
/// inner error when the error's own tag stands in `t`'s attempted chain,
/// nothing otherwise.
pub open spec fn spec_identify(reg: Seq<TagDescriptor>, t: usize, err: ErasedError) -> Option<
    ErasedError,
> {
    match err {
        ErasedError::Plain(_) => None,
        ErasedError::Tagged(te) => if spec_attempted_chain(reg, t).contains(te.tag) {
            Some(te.inner)
        } else {
            None
        },
    }
}

/// The attempted chain of a declared tag begins with the tag itself.
pub proof fn lemma_attempted_chain_head(reg: Seq<TagDescriptor>, t: usize)
    requires
        (t as int) < reg.len(),
    ensures
        spec_attempted_chain(reg, t).len() > 0,
        spec_attempted_chain(reg, t)[0] == t,
        spec_attempted_chain(reg, t).contains(t),
{
    let visited = Seq::new(reg.len(), |i: int| false);
    assert(!visited[t as int]);
    assert(spec_attempted_chain(reg, t) == seq![t] + attempt_order_from(
        reg,
        reg[t as int].chain@ + seq![t].drop_first(),
        visited.update(t as int, true),
    ));
    assert(spec_attempted_chain(reg, t)[0] == t);
}

/// Law: construction is total and self-recognising. Any erased error
/// wrapped by a declared tag is recognised by that same tag's
/// identification, which returns the original wrapped error.
pub proof fn lemma_construct_matches(reg: Seq<TagDescriptor>, te: TagError)
    requires
        (te.tag as int) < reg.len(),
    ensures
        spec_identify(reg, te.tag, ErasedError::Tagged(Box::new(te))) == Some(te.inner),
{
    lemma_attempted_chain_head(reg, te.tag);
}

/// Every tag of the worklist that is declared and not yet visited appears
/// in the attempt order.
proof fn lemma_attempt_order_covers(
    reg: Seq<TagDescriptor>,
    work: Seq<usize>,
    visited: Seq<bool>,
    k: usize,
)
    requires
        work.contains(k),
        (k as int) < reg.len(),
        (k as int) < visited.len(),
        !visited[k as int],
    ensures
        attempt_order_from(reg, work, visited).contains(k),
    decreases count_false(visited), work.len(),
{
    let u = work[0];
    let r = attempt_order_from(reg, work, visited);
    if u == k {
        assert(r[0] == k);
    } else {
        let i = choose|i: int| 0 <= i < work.len() && work[i] == k;
        assert(work.drop_first()[i - 1] == k);
        assert(work.drop_first().contains(k));
        if (u as int) < reg.len() && (u as int) < visited.len() && !visited[u as int] {
            lemma_count_false_update(visited, u as int);
            let work2 = reg[u as int].chain@ + work.drop_first();
            let j = choose|j: int| 0 <= j < work.drop_first().len() && work.drop_first()[j] == k;
            assert(work2[reg[u as int].chain@.len() + j] == k);
            assert(work2.contains(k));
            lemma_attempt_order_covers(reg, work2, visited.update(u as int, true), k);
            let rest = attempt_order_from(reg, work2, visited.update(u as int, true));
            let m = choose|m: int| 0 <= m < rest.len() && rest[m] == k;
            assert(r[m + 1] == k);
        } else {
            lemma_attempt_order_covers(reg, work.drop_first(), visited, k);
        }
    }
}

/// Law: identification is selective. An error wrapped by tag `a` is
/// recognised under `a`'s own dispatch; under a distinct tag `b` it is not
/// recognised when `b`'s chain is left at its empty default, and it is
/// recognised — delegation reaches `a` and succeeds — when `b`'s chain has
/// been configured to include `a`.
pub proof fn lemma_identify_selective(reg: Seq<TagDescriptor>, a: usize, b: usize, te: TagError)
    requires
        te.tag == a,
        (a as int) < reg.len(),
        (b as int) < reg.len(),
        a != b,
    ensures
        spec_identify(reg, a, ErasedError::Tagged(Box::new(te))) == Some(te.inner),
        reg[b as int].chain@ == Seq::<usize>::empty() ==> spec_identify(
            reg,
            b,
            ErasedError::Tagged(Box::new(te)),
        ) is None,
        reg[b as int].chain@.contains(a) ==> spec_identify(
            reg,
            b,
            ErasedError::Tagged(Box::new(te)),
        ) == Some(te.inner),
{
    lemma_construct_matches(reg, te);
    let visited = Seq::new(reg.len(), |i: int| false);
    let visited_b = visited.update(b as int, true);
    assert(!visited[b as int]);
    let work_b = reg[b as int].chain@ + seq![b].drop_first();
    assert(work_b =~= reg[b as int].chain@);
    assert(spec_attempted_chain(reg, b) == seq![b] + attempt_order_from(reg, work_b, visited_b));
    if reg[b as int].chain@ == Seq::<usize>::empty() {
        assert(attempt_order_from(reg, work_b, visited_b) =~= Seq::empty());
        assert(spec_attempted_chain(reg, b) =~= seq![b]);
        assert forall|j: int|
            0 <= j < spec_attempted_chain(reg, b).len() implies spec_attempted_chain(reg, b)[j]
            != a by {}
        assert(!spec_attempted_chain(reg, b).contains(a));
    }
    if reg[b as int].chain@.contains(a) {
        assert(!visited_b[a as int]);
        lemma_attempt_order_covers(reg, work_b, visited_b, a);
        let rest = attempt_order_from(reg, work_b, visited_b);
        let m = choose|m: int| 0 <= m < rest.len() && rest[m] == a;
        assert(spec_attempted_chain(reg, b)[m + 1] == a);
        assert(spec_attempted_chain(reg, b).contains(a));
    }
}

/// Law: the traversal order equals the declared order. A tag `c`
/// configured with the sibling chain `[a, b]` attempts exactly `c` first,
/// then `a`, then `b`.
pub proof fn lemma_chain_order(reg: Seq<TagDescriptor>, c: usize, a: usize, b: usize)
    requires
        (c as int) < reg.len(),
        (a as int) < reg.len(),
        (b as int) < reg.len(),
        a != b,
        a != c,
        b != c,
        reg[c as int].chain@ == seq![a, b],
        reg[a as int].chain@ == Seq::<usize>::empty(),
        reg[b as int].chain@ == Seq::<usize>::empty(),
    ensures
        spec_attempted_chain(reg, c) == seq![c, a, b],
{
    let v0 = Seq::new(reg.len(), |i: int| false);
    let v1 = v0.update(c as int, true);
    let v2 = v1.update(a as int, true);
    let v3 = v2.update(b as int, true);
    assert(!v0[c as int]);
    assert(!v1[a as int]);
    assert(!v2[b as int]);
    let w1 = reg[c as int].chain@ + seq![c].drop_first();
    assert(w1 =~= seq![a, b]);
    let w2 = reg[a as int].chain@ + seq![a, b].drop_first();
    assert(w2 =~= seq![b]);
    let w3 = reg[b as int].chain@ + seq![b].drop_first();
    assert(w3 =~= Seq::<usize>::empty());
    assert(spec_attempted_chain(reg, c) == seq![c] + attempt_order_from(reg, w1, v1));
    assert(attempt_order_from(reg, w1, v1) == seq![a] + attempt_order_from(reg, w2, v2));
    assert(attempt_order_from(reg, w2, v2) == seq![b] + attempt_order_from(reg, w3, v3));
    assert(attempt_order_from(reg, w3, v3) =~= Seq::<usize>::empty());
    assert(spec_attempted_chain(reg, c) =~= seq![c, a, b]);
}

/// Law: a miss is silent. A plain error, or a tagged error whose tag
/// stands nowhere in the attempted chain, is not recognised: identification
/// returns nothing, and dispatch invokes no handler.
pub proof fn lemma_miss_silent(reg: Seq<TagDescriptor>, t: usize, err: ErasedError)
    requires
        match err {
            ErasedError::Plain(_) => true,
            ErasedError::Tagged(te) => !spec_attempted_chain(reg, t).contains(te.tag),
        },
    ensures
        spec_identify(reg, t, err) is None,
{
}

} // verus!
