//! What a capability declares about itself: what it provides and requires,
//! ordering constraints against other capabilities, and its permissions.

use vstd::prelude::*;
use crate::text::str_eq;

verus! {

/// The declaration a capability registers with the kernel.
pub struct CapabilityManifest {
    pub id: String,
    pub version: String,
    pub provides: Vec<String>,
    pub requires: Vec<String>,
    pub before: Vec<String>,
    pub after: Vec<String>,
    pub tags: Vec<String>,
    pub permissions: Vec<String>,
    pub cost: u32,
}

/// The characters of each string of `v`.
pub open spec fn strs(v: Seq<String>) -> Seq<Seq<char>> {
    v.map_values(|s: String| s@)
}

/// A vector holding the given strings, in order.
pub fn string_list(items: &[&str]) -> (r: Vec<String>)
    ensures
        strs(r@) == items@.map_values(|s: &str| s@),
{
    let mut r: Vec<String> = Vec::new();
    let mut i: usize = 0;
    while i < items.len()
        invariant
            i <= items@.len(),
            strs(r@) == items@.map_values(|s: &str| s@).take(i as int),
        decreases items@.len() - i,
    {
        let ghost prev = strs(r@);
        let item = String::from_str(items[i]);
        r.push(item);
        assert(strs(r@) =~= prev.push(item@));
        assert(items@.map_values(|s: &str| s@).take(i + 1) =~= items@.map_values(|s: &str| s@).take(i as int).push(items@[i as int]@));
        i = i + 1;
    }
    assert(items@.map_values(|s: &str| s@).take(items@.len() as int) =~= items@.map_values(|s: &str| s@));
    r
}

/// A copy of a vector of strings.
pub fn clone_strings(v: &Vec<String>) -> (r: Vec<String>)
    ensures
        r@ == v@,
{
    let mut r: Vec<String> = Vec::new();
    let mut i: usize = 0;
    while i < v.len()
        invariant
            i <= v.len(),
            r@ == v@.subrange(0, i as int),
        decreases v.len() - i,
    {
        r.push(v[i].clone());
        i = i + 1;
        assert(r@ =~= v@.subrange(0, i as int));
    }
    assert(v@.subrange(0, v.len() as int) =~= v@);
    r
}

/// Whether `v` holds a string equal to `s`.
pub fn strings_contain(v: &Vec<String>, s: &str) -> (r: bool)
    ensures
        r == strs(v@).contains(s@),
{
    let mut i: usize = 0;
    while i < v.len()
        invariant
            i <= v.len(),
            forall|j: int| 0 <= j < i ==> v@[j]@ != s@,
        decreases v.len() - i,
    {
        if str_eq(v[i].as_str(), s) {
            assert(strs(v@)[i as int] == s@);
            return true;
        }
        i = i + 1;
    }
    assert(!strs(v@).contains(s@)) by {
        if strs(v@).contains(s@) {
            let j = choose|j: int| 0 <= j < strs(v@).len() && strs(v@)[j] == s@;
            assert(v@[j]@ == s@);
        }
    }
    false
}

/// Two manifests declare the same things.
pub open spec fn same_manifest(a: CapabilityManifest, b: CapabilityManifest) -> bool {
    &&& a.id@ == b.id@
    &&& a.version@ == b.version@
    &&& a.provides@ == b.provides@
    &&& a.requires@ == b.requires@
    &&& a.before@ == b.before@
    &&& a.after@ == b.after@
    &&& a.tags@ == b.tags@
    &&& a.permissions@ == b.permissions@
    &&& a.cost == b.cost
}

impl CapabilityManifest {
    /// A field-by-field copy.
    pub fn duplicate(&self) -> (r: Self)
        ensures
            same_manifest(r, *self),
    {
        CapabilityManifest {
            id: self.id.clone(),
            version: self.version.clone(),
            provides: clone_strings(&self.provides),
            requires: clone_strings(&self.requires),
            before: clone_strings(&self.before),
            after: clone_strings(&self.after),
            tags: clone_strings(&self.tags),
            permissions: clone_strings(&self.permissions),
            cost: self.cost,
        }
    }
}

} // verus!
