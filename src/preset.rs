use vstd::prelude::*;
use vstd::string::*;

verus! {

/// A mod entry of a preset that carries more than the mod's name.
#[derive(Debug)]
pub struct ModInfo {
    pub name: String,
    pub url: Option<String>,
    pub files: Option<Vec<String>>,
}

/// A mod entry of a preset: a bare name or a detailed record.
#[derive(Debug)]
pub enum Mod {
    Simple(String),
    Detailed(ModInfo),
}

/// A named, ordered set of mods meant to be active together.
#[derive(Debug)]
pub struct Preset {
    pub name: String,
    pub mods: Vec<Mod>,
}

/// The name of the mod an entry refers to.
pub open spec fn mod_name(m: Mod) -> Seq<char> {
    match m {
        Mod::Simple(n) => n@,
        Mod::Detailed(info) => info.name@,
    }
}

/// Whether some entry of `mods` refers to the mod `name`.
pub open spec fn refers_to(mods: Seq<Mod>, name: Seq<char>) -> bool {
    exists|i: int| 0 <= i < mods.len() && #[trigger] mod_name(mods[i]) == name
}

/// The names among `names` that adding them one by one to a preset whose
/// entries name `present` appends: each name not yet there, in order.
pub open spec fn names_added(present: Seq<Seq<char>>, names: Seq<Seq<char>>) -> Seq<Seq<char>>
    decreases names.len(),
{
    if names.len() == 0 {
        Seq::empty()
    } else {
        let earlier = names_added(present, names.drop_last());
        if (present + earlier).contains(names.last()) {
            earlier
        } else {
            earlier.push(names.last())
        }
    }
}

/// The entries of `mods` that do not refer to the mod `name`, in order.
pub open spec fn without_mod(mods: Seq<Mod>, name: Seq<char>) -> Seq<Mod>
    decreases mods.len(),
{
    if mods.len() == 0 {
        Seq::empty()
    } else {
        let rest = without_mod(mods.subrange(1, mods.len() as int), name);
        if mod_name(mods[0]) == name {
            rest
        } else {
            seq![mods[0]] + rest
        }
    }
}

impl Mod {
    /// The name of the mod this entry refers to.
    pub fn name(&self) -> (r: &String)
        ensures
            r@ == mod_name(*self),
    {
        match self {
            Mod::Simple(n) => n,
            Mod::Detailed(info) => &info.name,
        }
    }
}

impl Preset {
    /// An empty preset named `name`.
    pub fn new(name: &str) -> (r: Self)
        ensures
            r.name@ == name@,
            r.mods@.len() == 0,
    {
        Preset { name: String::from_str(name), mods: Vec::new() }
    }

    /// The names of the mods of the preset, in order.
    pub fn mod_names(&self) -> (r: Vec<String>)
        ensures
            r@.len() == self.mods@.len(),
            forall|i: int| 0 <= i < r@.len() ==> #[trigger] r@[i]@ == mod_name(self.mods@[i]),
    {
        let mut r: Vec<String> = Vec::new();
        let mut i: usize = 0;
        while i < self.mods.len()
            invariant
                0 <= i <= self.mods@.len(),
                r@.len() == i,
                forall|j: int| 0 <= j < i ==> #[trigger] r@[j]@ == mod_name(self.mods@[j]),
            decreases self.mods@.len() - i,
        {
            r.push(self.mods[i].name().clone());
            i = i + 1;
        }
        r
    }

    /// Whether some entry refers to the mod `name`.
    pub fn contains_mod(&self, name: &String) -> (r: bool)
        ensures
            r == refers_to(self.mods@, name@),
    {
        let mut i: usize = 0;
        while i < self.mods.len()
            invariant
                0 <= i <= self.mods@.len(),
                forall|j: int| 0 <= j < i ==> mod_name(#[trigger] self.mods@[j]) != name@,
            decreases self.mods@.len() - i,
        {
            if *self.mods[i].name() == *name {
                return true;
            }
            i = i + 1;
        }
        false
    }

    /// Appends the mod `name` as a bare entry.
    pub fn add_mod(&mut self, name: &str)
        ensures
            final(self).name == old(self).name,
            final(self).mods@.len() == old(self).mods@.len() + 1,
            final(self).mods@.subrange(0, old(self).mods@.len() as int) == old(self).mods@,
            final(self).mods@.last() is Simple,
            mod_name(final(self).mods@.last()) == name@,
    {
        self.mods.push(Mod::Simple(String::from_str(name)));
        assert(self.mods@.subrange(0, self.mods@.len() - 1) =~= old(self).mods@);
    }

    /// Appends, as bare entries and in order, each of `names` that no entry
    /// refers to yet.
    pub fn add_mods(&mut self, names: &Vec<String>)
        ensures
            final(self).name == old(self).name,
            ({
                let added = names_added(
                    old(self).mods@.map_values(|m: Mod| mod_name(m)),
                    names@.map_values(|n: String| n@),
                );
                &&& final(self).mods@.len() == old(self).mods@.len() + added.len()
                &&& final(self).mods@.subrange(0, old(self).mods@.len() as int) == old(self).mods@
                &&& forall|k: int|
                    0 <= k < added.len() ==> {
                        &&& (#[trigger] final(self).mods@[old(self).mods@.len() + k]) is Simple
                        &&& mod_name(final(self).mods@[old(self).mods@.len() + k]) == added[k]
                    }
            }),
    {
        let ghost present = self.mods@.map_values(|m: Mod| mod_name(m));
        let ghost all = names@.map_values(|n: String| n@);
        let ghost start = self.mods@;
        let mut i: usize = 0;
        assert(all.subrange(0, 0) =~= Seq::<Seq<char>>::empty());
        while i < names.len()
            invariant
                0 <= i <= names@.len(),
                self.name == old(self).name,
                start == old(self).mods@,
                present == start.map_values(|m: Mod| mod_name(m)),
                all == names@.map_values(|n: String| n@),
                ({
                    let added = names_added(present, all.subrange(0, i as int));
                    &&& self.mods@.len() == start.len() + added.len()
                    &&& self.mods@.subrange(0, start.len() as int) == start
                    &&& forall|k: int|
                        0 <= k < added.len() ==> {
                            &&& (#[trigger] self.mods@[start.len() + k]) is Simple
                            &&& mod_name(self.mods@[start.len() + k]) == added[k]
                        }
                }),
            decreases names@.len() - i,
        {
            let ghost added = names_added(present, all.subrange(0, i as int));
            let ghost next = all.subrange(0, i + 1);
            assert(next.drop_last() =~= all.subrange(0, i as int));
            assert(next.last() == names@[i as int]@);
            assert(self.mods@.map_values(|m: Mod| mod_name(m)) =~= present + added) by {
                assert forall|k: int| 0 <= k < self.mods@.len() implies #[trigger] mod_name(
                    self.mods@[k],
                ) == (present + added)[k] by {
                    if k < start.len() {
                        assert(self.mods@[k] == self.mods@.subrange(0, start.len() as int)[k]);
                    } else {
                        assert(self.mods@[start.len() + (k - start.len())] == self.mods@[k]);
                    }
                }
            }
            let found = self.contains_mod(&names[i]);
            proof {
                let ms = self.mods@.map_values(|m: Mod| mod_name(m));
                if found {
                    let j = choose|j: int| 0 <= j < self.mods@.len() && #[trigger] mod_name(self.mods@[j]) == names@[i as int]@;
                    assert(ms[j] == names@[i as int]@);
                    assert((present + added).contains(next.last()));
                } else {
                    assert forall|j: int| 0 <= j < ms.len() implies ms[j] != next.last() by {
                        assert(ms[j] == mod_name(self.mods@[j]));
                    }
                    assert(!(present + added).contains(next.last()));
                }
            }
            if !found {
                let ghost before = self.mods@;
                self.mods.push(Mod::Simple(names[i].clone()));
                assert(self.mods@.subrange(0, start.len() as int) =~= before.subrange(0, start.len() as int));
            }
            i = i + 1;
        }
        assert(all.subrange(0, names@.len() as int) =~= all);
    }

    /// Drops every entry that refers to the mod `name`, keeping the order of
    /// the others.
    pub fn remove_mod(&mut self, name: &str)
        ensures
            final(self).name == old(self).name,
            final(self).mods@ == without_mod(old(self).mods@, name@),
    {
        let name = String::from_str(name);
        let mut i: usize = 0;
        assert(self.mods@.subrange(0, 0) + without_mod(self.mods@.subrange(0, self.mods@.len() as int), name@) =~= without_mod(old(self).mods@, name@)) by {
            assert(self.mods@.subrange(0, self.mods@.len() as int) =~= self.mods@);
        }
        while i < self.mods.len()
            invariant
                0 <= i <= self.mods@.len(),
                self.name == old(self).name,
                without_mod(old(self).mods@, name@) == self.mods@.subrange(0, i as int)
                    + without_mod(self.mods@.subrange(i as int, self.mods@.len() as int), name@),
            decreases self.mods@.len() - i,
        {
            let ghost before = self.mods@;
            let ghost rest = before.subrange(i as int, before.len() as int);
            assert(rest[0] == before[i as int]);
            assert(rest.subrange(1, rest.len() as int) =~= before.subrange(i + 1, before.len() as int));
            if *self.mods[i].name() == name {
                self.mods.remove(i);
                assert(self.mods@.subrange(0, i as int) =~= before.subrange(0, i as int));
                assert(self.mods@.subrange(i as int, self.mods@.len() as int) =~= before.subrange(i + 1, before.len() as int));
            } else {
                assert(before.subrange(0, i + 1) =~= before.subrange(0, i as int) + seq![before[i as int]]);
                i = i + 1;
            }
        }
        assert(self.mods@.subrange(0, i as int) =~= self.mods@);
        assert(self.mods@.subrange(i as int, self.mods@.len() as int) =~= Seq::<Mod>::empty());
    }
}

} // verus!
