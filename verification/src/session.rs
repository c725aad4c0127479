//! The bookkeeping of one application run: which of the crates listed for
//! patching are still waiting for a patch file.
use vstd::prelude::*;
use crate::text::str_eq;

verus! {

/// The crates listed for patching that no patch file has claimed yet.
pub struct ApplySession {
    pending: Vec<String>,
}

impl ApplySession {
    #[verifier::type_invariant]
    spec fn each_once(self) -> bool {
        self.pending.deep_view().no_duplicates()
    }
}

impl View for ApplySession {
    type V = Set<Seq<char>>;

    /// The names still waiting.
    closed spec fn view(&self) -> Set<Seq<char>> {
        self.pending.deep_view().to_set()
    }
}

/// Whether `name` occurs among `names`.
fn contains_name(names: &Vec<String>, name: &str) -> (r: bool)
    ensures
        r == names.deep_view().contains(name@),
{
    let mut i: usize = 0;
    while i < names.len()
        invariant
            i <= names@.len(),
            forall|j: int| 0 <= j < i ==> names@[j]@ != name@,
        decreases names@.len() - i,
    {
        if str_eq(names[i].as_str(), name) {
            assert(names.deep_view()[i as int] == name@);
            return true;
        }
        i = i + 1;
    }
    assert forall|j: int| 0 <= j < names.deep_view().len() implies names.deep_view()[j]
        != name@ by {
        assert(names.deep_view()[j] == names@[j]@);
    }
    false
}

impl ApplySession {
    /// A session in which every crate of `names` waits, each once.
    pub fn new(names: &Vec<String>) -> (s: Self)
        ensures
            s@ == names.deep_view().to_set(),
    {
        let mut pending: Vec<String> = Vec::new();
        let mut i: usize = 0;
        while i < names.len()
            invariant
                i <= names@.len(),
                pending.deep_view().no_duplicates(),
                pending.deep_view().to_set() == names.deep_view().take(i as int).to_set(),
            decreases names@.len() - i,
        {
            let ghost before = pending.deep_view();
            assert(names.deep_view().take(i + 1) =~= names.deep_view().take(i as int).push(
                names@[i as int]@,
            ));
            if !contains_name(&pending, names[i].as_str()) {
                pending.push(names[i].clone());
                assert(pending.deep_view() =~= before.push(names@[i as int]@));
                proof {
                    before.lemma_push_to_set_commute(names@[i as int]@);
                }
                assert(pending.deep_view().to_set() =~= before.to_set().insert(names@[i as int]@));
            } else {
                assert(before.to_set().contains(names@[i as int]@));
                assert(before.to_set().insert(names@[i as int]@) =~= before.to_set());
            }
            proof {
                names.deep_view().take(i as int).lemma_push_to_set_commute(names@[i as int]@);
            }
            assert(names.deep_view().take(i + 1).to_set() =~= names.deep_view().take(
                i as int,
            ).to_set().insert(names@[i as int]@));
            i = i + 1;
        }
        assert(names.deep_view().take(names@.len() as int) =~= names.deep_view());
        ApplySession { pending }
    }

    /// Claims `name` for a patch file: `true` exactly when it was waiting, and
    /// it waits no longer either way.
    pub fn claim(&mut self, name: &str) -> (listed: bool)
        ensures
            listed == old(self)@.contains(name@),
            final(self)@ == old(self)@.remove(name@),
    {
        proof {
            use_type_invariant(&*self);
        }
        let ghost old_view = self.pending.deep_view();
        let mut kept: Vec<String> = Vec::new();
        let mut listed = false;
        let mut i: usize = 0;
        while i < self.pending.len()
            invariant
                i <= self.pending@.len(),
                old_view == self.pending.deep_view(),
                old_view.no_duplicates(),
                kept.deep_view().no_duplicates(),
                kept.deep_view().to_set() == old_view.take(i as int).to_set().remove(name@),
                listed == old_view.take(i as int).to_set().contains(name@),
            decreases self.pending@.len() - i,
        {
            let ghost before = kept.deep_view();
            let item = &self.pending[i];
            assert(old_view[i as int] == item@);
            assert(old_view.take(i + 1) =~= old_view.take(i as int).push(item@));
            proof {
                old_view.take(i as int).lemma_push_to_set_commute(item@);
            }
            if str_eq(item.as_str(), name) {
                listed = true;
                assert(old_view.take(i + 1).to_set().remove(name@) =~= old_view.take(
                    i as int,
                ).to_set().remove(name@));
            } else {
                assert(!before.to_set().contains(item@)) by {
                    if before.to_set().contains(item@) {
                        assert(old_view.take(i as int).to_set().contains(item@));
                        let k = choose|k: int| 0 <= k < i && old_view.take(i as int)[k] == item@;
                        assert(old_view[k] == old_view[i as int]);
                    }
                }
                kept.push(item.clone());
                assert(kept.deep_view() =~= before.push(item@));
                proof {
                    before.lemma_push_to_set_commute(item@);
                }
                assert(kept.deep_view().to_set() =~= before.to_set().insert(item@));
                assert(old_view.take(i + 1).to_set().remove(name@) =~= old_view.take(
                    i as int,
                ).to_set().remove(name@).insert(item@));
            }
            i = i + 1;
        }
        assert(old_view.take(self.pending@.len() as int) =~= old_view);
        self.pending = kept;
        listed
    }

    /// The crates still waiting, each once.
    pub fn remaining(&self) -> (r: Vec<String>)
        ensures
            r.deep_view().no_duplicates(),
            r.deep_view().to_set() == self@,
    {
        proof {
            use_type_invariant(self);
        }
        let mut out: Vec<String> = Vec::new();
        let mut i: usize = 0;
        while i < self.pending.len()
            invariant
                i <= self.pending@.len(),
                self.pending.deep_view().no_duplicates(),
                out.deep_view() == self.pending.deep_view().take(i as int),
            decreases self.pending@.len() - i,
        {
            let ghost before = out.deep_view();
            let item = self.pending[i].clone();
            assert(item@ == self.pending.deep_view()[i as int]);
            out.push(item);
            assert(out.deep_view() =~= before.push(item@));
            assert(out.deep_view() =~= self.pending.deep_view().take(i + 1));
            i = i + 1;
        }
        assert(self.pending.deep_view().take(self.pending@.len() as int)
            =~= self.pending.deep_view());
        out
    }
}

/// The names still waiting after the patch files of `claims` claimed theirs,
/// in order.
pub open spec fn waiting_after(start: Set<Seq<char>>, claims: Seq<Seq<char>>) -> Set<Seq<char>>
    decreases claims.len(),
{
    if claims.len() == 0 {
        start
    } else {
        waiting_after(start, claims.drop_last()).remove(claims.last())
    }
}

/// Whether the `j`-th claim of `claims` finds its name waiting.
pub open spec fn claim_succeeds(start: Set<Seq<char>>, claims: Seq<Seq<char>>, j: int) -> bool {
    waiting_after(start, claims.take(j)).contains(claims[j])
}

/// Over any run of claims, a listed crate is claimed by the first patch file
/// that names it and by no later one, a crate that is not listed is never
/// claimed, and the crates left waiting are exactly the listed ones that no
/// patch file named: each listed crate is handled once, from a patch file or
/// plainly.
pub proof fn lemma_claims_partition(start: Set<Seq<char>>, claims: Seq<Seq<char>>)
    ensures
        waiting_after(start, claims) == start.difference(claims.to_set()),
        forall|j: int|
            0 <= j < claims.len() ==> (#[trigger] claim_succeeds(start, claims, j) == (start.contains(
                claims[j],
            ) && !claims.take(j).contains(claims[j]))),
    decreases claims.len(),
{
    if claims.len() > 0 {
        let prefix = claims.drop_last();
        lemma_claims_partition(start, prefix);
        assert(claims.to_set() =~= prefix.to_set().insert(claims.last())) by {
            assert(claims =~= prefix.push(claims.last()));
            assert forall|x: Seq<char>| claims.to_set().contains(x) implies prefix.to_set().insert(
                claims.last(),
            ).contains(x) by {
                let k = choose|k: int| 0 <= k < claims.len() && claims[k] == x;
                if k < claims.len() - 1 {
                    assert(prefix[k] == x);
                }
            }
            assert forall|x: Seq<char>| prefix.to_set().insert(claims.last()).contains(
                x,
            ) implies claims.to_set().contains(x) by {
                if x == claims.last() {
                    assert(claims[claims.len() - 1] == x);
                } else {
                    let k = choose|k: int| 0 <= k < prefix.len() && prefix[k] == x;
                    assert(claims[k] == x);
                }
            }
        }
        assert(waiting_after(start, claims) =~= start.difference(claims.to_set()));
        assert forall|j: int| 0 <= j < claims.len() implies (#[trigger] claim_succeeds(
            start,
            claims,
            j,
        ) == (start.contains(claims[j]) && !claims.take(j).contains(claims[j]))) by {
            if j < claims.len() - 1 {
                assert(claims.take(j) =~= prefix.take(j));
                assert(claim_succeeds(start, claims, j) == claim_succeeds(start, prefix, j));
            } else {
                assert(claims.take(j) =~= prefix);
                assert(claims.take(j).to_set().contains(claims[j]) == claims.take(j).contains(
                    claims[j],
                ));
            }
        }
    }
}

} // verus!
