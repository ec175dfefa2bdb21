//! Sets of texts, kept in order.

use vstd::prelude::*;

use crate::ordered::{ascending, insert_ordered, listing, lists, models, one_listing};
use crate::text::{copied_texts, same, texts};

verus! {

/// A set of texts.
#[derive(Debug)]
pub struct TextSet {
    members: Vec<String>,
}

impl TextSet {
    #[verifier::type_invariant]
    spec fn well_formed(self) -> bool {
        ascending::<String>(texts(self.members@))
    }
}

impl View for TextSet {
    type V = Set<Seq<char>>;

    closed spec fn view(&self) -> Set<Seq<char>> {
        texts(self.members@).to_set()
    }
}

impl Default for TextSet {
    fn default() -> (r: Self)
        ensures
            r@ == Set::<Seq<char>>::empty(),
    {
        TextSet::new()
    }
}

impl Clone for TextSet {
    fn clone(&self) -> (r: Self)
        ensures
            r@ == self@,
    {
        proof {
            use_type_invariant(self);
        }
        TextSet { members: copied_texts(&self.members) }
    }
}

impl TextSet {
    /// The set without members.
    pub fn new() -> (r: Self)
        ensures
            r@ == Set::<Seq<char>>::empty(),
    {
        let r = TextSet { members: Vec::new() };
        assert(r@ =~= Set::empty());
        r
    }

    /// The members in ascending order.
    pub fn members(&self) -> (r: &Vec<String>)
        ensures
            texts(r@) == listing::<String>(self@),
            lists::<String>(texts(r@), self@),
    {
        proof {
            use_type_invariant(self);
            assert(lists::<String>(texts(self.members@), self@));
            one_listing::<String>(texts(self.members@), listing::<String>(self@));
        }
        &self.members
    }

    /// Whether there are no members.
    pub fn is_empty(&self) -> (r: bool)
        ensures
            r == (self@ == Set::<Seq<char>>::empty()),
    {
        let r = self.members.len() == 0;
        proof {
            if r {
                assert(self@ =~= Set::empty());
            } else {
                assert(texts(self.members@)[0] == self.members[0]@);
                assert(self@.contains(self.members[0]@));
            }
        }
        r
    }

    /// Whether `text` is a member.
    pub fn contains(&self, text: &str) -> (r: bool)
        ensures
            r == self@.contains(text@),
    {
        let mut i: usize = 0;
        while i < self.members.len()
            invariant
                i <= self.members.len(),
                forall|j: int| 0 <= j < i ==> #[trigger] texts(self.members@)[j] != text@,
            decreases self.members.len() - i,
        {
            assert(texts(self.members@)[i as int] == self.members[i as int]@);
            if same(self.members[i].as_str(), text) {
                return true;
            }
            i += 1;
        }
        false
    }

    /// Makes `text` a member.
    pub fn insert(&mut self, text: String)
        ensures
            final(self)@ == old(self)@.insert(text@),
    {
        proof {
            use_type_invariant(&*self);
        }
        let mut members: Vec<String> = Vec::new();
        std::mem::swap(&mut members, &mut self.members);
        assert(texts(members@) =~= models(members@));
        insert_ordered(&mut members, text);
        assert(texts(members@) =~= models(members@));
        self.members = members;
    }

    /// Makes the members of `other` members.
    pub fn extend(&mut self, other: &TextSet)
        ensures
            final(self)@ == old(self)@.union(other@),
    {
        let mut i: usize = 0;
        while i < other.members.len()
            invariant
                i <= other.members.len(),
                self@ =~= old(self)@.union(texts(other.members@).take(i as int).to_set()),
            decreases other.members.len() - i,
        {
            self.insert(other.members[i].clone());
            proof {
                let list = texts(other.members@);
                assert(list.take(i + 1) =~= list.take(i as int).push(list[i as int]));
                list.take(i as int).lemma_push_to_set_commute(list[i as int]);
            }
            i += 1;
        }
        assert(texts(other.members@).take(i as int) =~= texts(other.members@));
    }
}

impl PartialEq for TextSet {
    fn eq(&self, other: &Self) -> (r: bool) {
        proof {
            use_type_invariant(self);
            use_type_invariant(other);
            if self@ == other@ {
                one_listing::<String>(texts(self.members@), texts(other.members@));
            }
        }
        if self.members.len() != other.members.len() {
            assert(texts(self.members@).len() != texts(other.members@).len());
            return false;
        }
        let mut i: usize = 0;
        while i < self.members.len()
            invariant
                i <= self.members.len() == other.members.len(),
                forall|j: int|
                    0 <= j < i ==> #[trigger] texts(self.members@)[j] == texts(other.members@)[j],
                self@ == other@ ==> texts(self.members@) == texts(other.members@),
            decreases self.members.len() - i,
        {
            assert(texts(self.members@)[i as int] == self.members[i as int]@);
            assert(texts(other.members@)[i as int] == other.members[i as int]@);
            if !same(self.members[i].as_str(), other.members[i].as_str()) {
                return false;
            }
            i += 1;
        }
        assert(texts(self.members@) =~= texts(other.members@));
        true
    }
}

impl vstd::std_specs::cmp::PartialEqSpecImpl for TextSet {
    open spec fn obeys_eq_spec() -> bool {
        true
    }

    open spec fn eq_spec(&self, other: &Self) -> bool {
        self@ == other@
    }
}

impl Eq for TextSet {

}

} // verus!
