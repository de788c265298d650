use vstd::prelude::*;

verus! {

/// The value that the last pair with key `key` gives it, if any pair does.
pub open spec fn lookup(pairs: Seq<(String, String)>, key: Seq<char>) -> Option<Seq<char>>
    decreases pairs.len(),
{
    if pairs.len() == 0 {
        None
    } else if pairs.last().0@ == key {
        Some(pairs.last().1@)
    } else {
        lookup(pairs.drop_last(), key)
    }
}

/// The map that inserting `pairs` in order builds: a later pair overrides an
/// earlier one with the same key.
pub open spec fn tag_map(pairs: Seq<(String, String)>) -> Map<Seq<char>, Seq<char>> {
    Map::new(|k: Seq<char>| lookup(pairs, k) is Some, |k: Seq<char>| lookup(pairs, k)->Some_0)
}

/// Whether two strings hold the same characters.
pub fn str_eq(a: &str, b: &str) -> (r: bool)
    ensures
        r == (a@ == b@),
{
    let n = a.unicode_len();
    if n != b.unicode_len() {
        return false;
    }
    let mut i: usize = 0;
    while i < n
        invariant
            i <= n,
            n == a@.len(),
            n == b@.len(),
            forall|j: int| 0 <= j < i ==> a@[j] == b@[j],
        decreases n - i,
    {
        if a.get_char(i) != b.get_char(i) {
            return false;
        }
        i = i + 1;
    }
    assert(a@ =~= b@);
    true
}

/// The tags of an OSM element, key to value.
pub struct Tags {
    pairs: Vec<(String, String)>,
}

impl View for Tags {
    type V = Map<Seq<char>, Seq<char>>;

    closed spec fn view(&self) -> Map<Seq<char>, Seq<char>> {
        tag_map(self.pairs@)
    }
}

impl Tags {
    pub fn new() -> (t: Tags)
        ensures
            t@ == Map::<Seq<char>, Seq<char>>::empty(),
    {
        let t = Tags { pairs: Vec::new() };
        assert(t@ =~= Map::<Seq<char>, Seq<char>>::empty());
        t
    }

    /// Collects key-value pairs; a later pair overrides an earlier one with
    /// the same key.
    pub fn from_pairs(pairs: Vec<(String, String)>) -> (t: Tags)
        ensures
            t@ == tag_map(pairs@),
    {
        Tags { pairs }
    }

    pub fn get(&self, key: &str) -> (r: Option<&String>)
        ensures
            match r {
                Some(v) => self@.contains_key(key@) && self@[key@] == v@,
                None => !self@.contains_key(key@),
            },
    {
        let mut i = self.pairs.len();
        assert(self.pairs@.subrange(0, i as int) =~= self.pairs@);
        while i > 0
            invariant
                i <= self.pairs@.len(),
                lookup(self.pairs@, key@) == lookup(self.pairs@.subrange(0, i as int), key@),
            decreases i,
        {
            let ghost head = self.pairs@.subrange(0, i as int);
            assert(head.drop_last() =~= self.pairs@.subrange(0, i - 1));
            if str_eq(self.pairs[i - 1].0.as_str(), key) {
                return Some(&self.pairs[i - 1].1);
            }
            i = i - 1;
        }
        None
    }

    pub fn contains(&self, key: &str) -> (r: bool)
        ensures
            r == self@.contains_key(key@),
    {
        match self.get(key) {
            Some(_) => true,
            None => false,
        }
    }
}

/// An OSM way: the ids of its nodes, in order, and its tags.
pub struct Way {
    pub tags: Tags,
    pub nodes: Vec<i64>,
}

pub enum RelationMemberType {
    Node,
    Way,
    Relation,
}

pub struct RelationMember {
    pub role: Option<String>,
    pub id: i64,
    pub member_type: RelationMemberType,
}

pub struct Relation {
    pub tags: Tags,
    pub members: Vec<RelationMember>,
}

} // verus!
