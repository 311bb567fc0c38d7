//! The authenticated principal: a claim carried with every request.

use vstd::prelude::*;

verus! {

/// The role a claim carries. An `Admin` implicitly satisfies every access
/// policy; a `Member` must satisfy each policy through its attributes.
#[derive(Clone, Copy, PartialEq, Eq, Structural, Debug)]
pub enum Role {
    Member,
    Admin,
}

/// The authenticated principal. Immutable after construction: produced once
/// from a validated token or a completed authentication handshake.
///
/// `attributes` is an association list from attribute names to values; the
/// first binding of a name is the one that counts.
pub struct NebulaClaim {
    pub gid: String,
    pub workspace_name: String,
    pub role: Role,
    pub attributes: Vec<(String, String)>,
}

impl NebulaClaim {
    /// The attribute bindings as a sequence of character-sequence pairs.
    pub open spec fn spec_attrs(&self) -> Seq<(Seq<char>, Seq<char>)> {
        self.attributes@.map_values(|p: (String, String)| (p.0@, p.1@))
    }

    /// The value bound to `name`, as a map lookup over the first bindings.
    pub open spec fn spec_attribute(&self, name: Seq<char>) -> Option<Seq<char>> {
        spec_lookup(self.spec_attrs(), name)
    }

    /// Looks an attribute up by name.
    pub fn attribute(&self, name: &String) -> (r: Option<&String>)
        ensures
            match r {
                Some(v) => self.spec_attribute(name@) == Some(v@),
                None => self.spec_attribute(name@) is None,
            },
    {
        let ghost pairs = self.attributes@.map_values(|p: (String, String)| (p.0@, p.1@));
        proof {
            assert(pairs.skip(0) =~= pairs);
        }
        let mut i: usize = 0;
        while i < self.attributes.len()
            invariant
                0 <= i <= self.attributes.len(),
                pairs == self.attributes@.map_values(|p: (String, String)| (p.0@, p.1@)),
                spec_lookup(pairs, name@) == spec_lookup(pairs.skip(i as int), name@),
            decreases self.attributes.len() - i,
        {
            proof {
                assert(pairs[i as int] == (self.attributes@[i as int].0@,
                self.attributes@[i as int].1@));
                assert(pairs.skip(i as int)[0] == pairs[i as int]);
            }
            if self.attributes[i].0 == *name {
                return Some(&self.attributes[i].1);
            }
            proof {
                assert(pairs.skip(i as int).skip(1) =~= pairs.skip(i + 1));
            }
            i = i + 1;
        }
        proof {
            assert(pairs.skip(i as int) =~= Seq::<(Seq<char>, Seq<char>)>::empty());
        }
        None
    }
}

/// First-match lookup in an association list.
pub open spec fn spec_lookup(pairs: Seq<(Seq<char>, Seq<char>)>, name: Seq<char>) -> Option<
    Seq<char>,
>
    decreases pairs.len(),
{
    if pairs.len() == 0 {
        None
    } else if pairs[0].0 == name {
        Some(pairs[0].1)
    } else {
        spec_lookup(pairs.skip(1), name)
    }
}

} // verus!
