use vstd::prelude::*;
use vstd::string::*;

use crate::paths::{join, join_path};

verus! {

/// The kind of a layout node: a plain directory, or a directory that receives
/// mod files.
#[derive(Clone, Copy, Debug, PartialEq, Eq, Structural)]
pub enum LayoutType {
    Dir,
    Moddir,
}

/// One node of a game's directory layout.
#[derive(Debug)]
pub struct Layout {
    pub name: String,
    pub node_type: LayoutType,
    pub sub: Option<Vec<Layout>>,
    /// Extensions accepted by a mod directory.
    pub mime: Option<Vec<String>>,
}

/// The game a profile belongs to.
#[derive(Debug)]
pub struct Game {
    pub name: String,
    /// Absolute path of the game's installation.
    pub path: String,
}

/// A game together with the layout of its installation tree.
#[derive(Debug)]
pub struct Profile {
    pub game: Game,
    pub layout: Vec<Layout>,
}

/// The children of a node, in declared order.
pub open spec fn children(n: Layout) -> Seq<Layout> {
    match n.sub {
        Some(v) => v@,
        None => Seq::empty(),
    }
}

/// Whether a node is a mod directory that accepts the extension `ext`.
pub open spec fn accepts(n: Layout, ext: Seq<char>) -> bool {
    &&& n.node_type is Moddir
    &&& n.mime is Some
    &&& exists|i: int| 0 <= i < n.mime->0@.len() && #[trigger] n.mime->0@[i]@ == ext
}

/// Names of the mod directories in `nodes`, in pre-order.
pub open spec fn moddir_names(nodes: Seq<Layout>) -> Seq<String>
    decreases nodes,
{
    if nodes.len() == 0 {
        Seq::empty()
    } else {
        let first = nodes[0];
        let own = if first.node_type is Moddir {
            seq![first.name]
        } else {
            Seq::empty()
        };
        let below = match first.sub {
            Some(v) => moddir_names(v@),
            None => Seq::empty(),
        };
        own + below + moddir_names(nodes.subrange(1, nodes.len() as int))
    }
}

/// The path of the first mod directory named `name` in a pre-order,
/// left-to-right walk of `nodes`, each node's path being its ancestors' names
/// joined below `prefix`.
pub open spec fn moddir_path(nodes: Seq<Layout>, name: Seq<char>, prefix: Seq<char>) -> Option<
    Seq<char>,
>
    decreases nodes,
{
    if nodes.len() == 0 {
        None
    } else {
        let first = nodes[0];
        let here = join(prefix, first.name@);
        if first.name@ == name && first.node_type is Moddir {
            Some(here)
        } else {
            let below = match first.sub {
                Some(v) => moddir_path(v@, name, here),
                None => None,
            };
            if below is Some {
                below
            } else {
                moddir_path(nodes.subrange(1, nodes.len() as int), name, prefix)
            }
        }
    }
}

/// Where a point leads within a layout: nowhere for an empty point, the path
/// of the named mod directory for `@name`, and the point itself otherwise.
pub open spec fn resolve(layout: Seq<Layout>, point: Seq<char>) -> Option<Seq<char>> {
    if point.len() == 0 {
        None
    } else if point[0] == '@' {
        moddir_path(layout, point.subrange(1, point.len() as int), Seq::empty())
    } else {
        Some(point)
    }
}

/// The symbolic point `@name`.
pub open spec fn symbolic(name: Seq<char>) -> Seq<char> {
    seq!['@'] + name
}

/// The point of the first mod directory, in pre-order starting at `n`, that
/// accepts the extension `ext`.
pub open spec fn match_point(n: Layout, ext: Seq<char>) -> Option<Seq<char>>
    decreases n,
{
    if accepts(n, ext) {
        Some(symbolic(n.name@))
    } else {
        match n.sub {
            Some(v) => match_point_in(v@, ext),
            None => None,
        }
    }
}

/// The first point that [`match_point`] finds among `nodes`, in order.
pub open spec fn match_point_in(nodes: Seq<Layout>, ext: Seq<char>) -> Option<Seq<char>>
    decreases nodes,
{
    if nodes.len() == 0 {
        None
    } else {
        let first = match_point(nodes[0], ext);
        if first is Some {
            first
        } else {
            match_point_in(nodes.subrange(1, nodes.len() as int), ext)
        }
    }
}

/// The characters of an optional string.
pub open spec fn opt_chars(o: Option<String>) -> Option<Seq<char>> {
    match o {
        Some(s) => Some(s@),
        None => None,
    }
}

proof fn lemma_moddir_path_split(a: Seq<Layout>, b: Seq<Layout>, name: Seq<char>, prefix: Seq<char>)
    ensures
        moddir_path(a + b, name, prefix) == if moddir_path(a, name, prefix) is Some {
            moddir_path(a, name, prefix)
        } else {
            moddir_path(b, name, prefix)
        },
    decreases a.len(),
{
    if a.len() == 0 {
        assert(a + b =~= b);
    } else {
        let ab = a + b;
        assert(ab[0] == a[0]);
        assert(ab.subrange(1, ab.len() as int) =~= a.subrange(1, a.len() as int) + b);
        lemma_moddir_path_split(a.subrange(1, a.len() as int), b, name, prefix);
    }
}

/// Where a walk finds a mod directory named `name`, that name is among the
/// mod directory names.
proof fn lemma_found_is_named(nodes: Seq<Layout>, name: Seq<char>, prefix: Seq<char>)
    requires
        moddir_path(nodes, name, prefix) is Some,
    ensures
        exists|i: int| 0 <= i < moddir_names(nodes).len() && #[trigger] moddir_names(nodes)[i]@ == name,
    decreases nodes,
{
    let first = nodes[0];
    let here = join(prefix, first.name@);
    let own = if first.node_type is Moddir {
        seq![first.name]
    } else {
        Seq::empty()
    };
    let below = match first.sub {
        Some(v) => moddir_names(v@),
        None => Seq::empty(),
    };
    let rest = nodes.subrange(1, nodes.len() as int);
    let all = moddir_names(nodes);
    assert(all == own + below + moddir_names(rest));
    if first.name@ == name && first.node_type is Moddir {
        assert(all[0]@ == name);
    } else if first.sub is Some && moddir_path(first.sub->0@, name, here) is Some {
        lemma_found_is_named(first.sub->0@, name, here);
        let i = choose|i: int| 0 <= i < below.len() && #[trigger] below[i]@ == name;
        assert(all[own.len() + i] == below[i]);
    } else {
        lemma_found_is_named(rest, name, prefix);
        let i = choose|i: int| 0 <= i < moddir_names(rest).len() && #[trigger] moddir_names(rest)[i]@ == name;
        assert(all[own.len() + below.len() + i] == moddir_names(rest)[i]);
    }
}

/// A symbolic point resolves to the top-level mod directory of its name,
/// where no node before it in the walk is a mod directory of that name;
/// and a symbolic point whose name is no mod directory's name resolves to
/// nothing.
pub proof fn lemma_resolve_symbolic(layout: Seq<Layout>, name: Seq<char>, k: int)
    ensures
        0 <= k < layout.len() && layout[k].node_type is Moddir && layout[k].name@ == name
            && moddir_path(layout.subrange(0, k), name, Seq::empty()) is None ==> resolve(
            layout,
            symbolic(name),
        ) == Some(name),
        (forall|i: int| 0 <= i < moddir_names(layout).len() ==> #[trigger] moddir_names(layout)[i]@ != name)
            ==> resolve(layout, symbolic(name)) is None,
{
    let point = symbolic(name);
    assert(point.subrange(1, point.len() as int) =~= name);
    assert(point[0] == '@');
    if 0 <= k < layout.len() && layout[k].node_type is Moddir && layout[k].name@ == name
        && moddir_path(layout.subrange(0, k), name, Seq::empty()) is None {
        let tail = layout.subrange(k, layout.len() as int);
        assert(layout =~= layout.subrange(0, k) + tail);
        lemma_moddir_path_split(layout.subrange(0, k), tail, name, Seq::empty());
        assert(tail[0] == layout[k]);
        assert(join(Seq::empty(), name) == name);
    }
    if moddir_path(layout, name, Seq::empty()) is Some {
        lemma_found_is_named(layout, name, Seq::empty());
    }
}

proof fn lemma_match_point_in_split(a: Seq<Layout>, b: Seq<Layout>, ext: Seq<char>)
    ensures
        match_point_in(a + b, ext) == if match_point_in(a, ext) is Some {
            match_point_in(a, ext)
        } else {
            match_point_in(b, ext)
        },
    decreases a.len(),
{
    if a.len() == 0 {
        assert(a + b =~= b);
    } else {
        let ab = a + b;
        assert(ab[0] == a[0]);
        assert(ab.subrange(1, ab.len() as int) =~= a.subrange(1, a.len() as int) + b);
        lemma_match_point_in_split(a.subrange(1, a.len() as int), b, ext);
    }
}

/// A plain directory whose child `k` is a mod directory accepting `ext`,
/// where no earlier child's subtree has one, classifies `ext` as that mod
/// directory's point; and where that directory `d` is a top-level node
/// preceded, in the walk, by no mod directory of the child's name, the
/// child's point resolves to `<d>/<child>`.
pub proof fn lemma_nested_moddir(layout: Seq<Layout>, m: int, k: int, ext: Seq<char>)
    requires
        0 <= m < layout.len(),
        layout[m].node_type is Dir,
        layout[m].sub is Some,
        0 <= k < layout[m].sub->0@.len(),
        layout[m].sub->0@[k].node_type is Moddir,
    ensures
        ({
            let d = layout[m];
            let kids = d.sub->0@;
            accepts(kids[k], ext) && match_point_in(kids.subrange(0, k), ext) is None ==> match_point(
                d,
                ext,
            ) == Some(symbolic(kids[k].name@))
        }),
        ({
            let d = layout[m];
            let kids = d.sub->0@;
            let t = kids[k].name@;
            moddir_path(layout.subrange(0, m), t, Seq::empty()) is None && moddir_path(
                kids.subrange(0, k),
                t,
                d.name@,
            ) is None ==> resolve(layout, symbolic(t)) == Some(join(d.name@, t))
        }),
{
    let d = layout[m];
    let kids = d.sub->0@;
    let t = kids[k].name@;
    let rest = kids.subrange(k, kids.len() as int);
    assert(kids =~= kids.subrange(0, k) + rest);
    assert(rest[0] == kids[k]);
    if accepts(kids[k], ext) && match_point_in(kids.subrange(0, k), ext) is None {
        lemma_match_point_in_split(kids.subrange(0, k), rest, ext);
        assert(match_point(kids[k], ext) == Some(symbolic(t)));
        assert(match_point_in(rest, ext) == Some(symbolic(t)));
        assert(match_point_in(kids, ext) == Some(symbolic(t)));
        assert(!accepts(d, ext));
    }
    if moddir_path(layout.subrange(0, m), t, Seq::empty()) is None && moddir_path(
        kids.subrange(0, k),
        t,
        d.name@,
    ) is None {
        let point = symbolic(t);
        assert(point.subrange(1, point.len() as int) =~= t);
        assert(point[0] == '@');
        let tail = layout.subrange(m, layout.len() as int);
        assert(layout =~= layout.subrange(0, m) + tail);
        lemma_moddir_path_split(layout.subrange(0, m), tail, t, Seq::empty());
        assert(tail[0] == d);
        assert(join(Seq::empty(), d.name@) == d.name@);
        lemma_moddir_path_split(kids.subrange(0, k), rest, t, d.name@);
        assert(moddir_path(rest, t, d.name@) == Some(join(d.name@, t)));
        assert(moddir_path(kids, t, d.name@) == Some(join(d.name@, t)));
        assert(moddir_path(tail, t, Seq::empty()) == Some(join(d.name@, t)));
    }
}

impl Layout {
    /// Whether this node is a mod directory that accepts `file_extension`.
    fn accepts_extension(&self, file_extension: &String) -> (r: bool)
        ensures
            r == accepts(*self, file_extension@),
    {
        if let LayoutType::Moddir = self.node_type {
            if let Some(mimes) = &self.mime {
                let mut i: usize = 0;
                while i < mimes.len()
                    invariant
                        0 <= i <= mimes@.len(),
                        self.node_type is Moddir,
                        self.mime == Some(*mimes),
                        forall|j: int| 0 <= j < i ==> mimes@[j]@ != file_extension@,
                    decreases mimes@.len() - i,
                {
                    if mimes[i] == *file_extension {
                        assert(self.mime->0@[i as int]@ == file_extension@);
                        return true;
                    }
                    i = i + 1;
                }
            }
        }
        false
    }

    fn find_matching(&self, file_extension: &String) -> (r: Option<String>)
        ensures
            opt_chars(r) == match_point(*self, file_extension@),
        decreases *self,
    {
        if self.accepts_extension(file_extension) {
            proof {
                reveal_strlit("@");
            }
            let mut point = String::from_str("@");
            point.append(self.name.as_str());
            return Some(point);
        }
        if let Some(sub_layouts) = &self.sub {
            let mut i: usize = 0;
            assert(sub_layouts@.subrange(0, sub_layouts@.len() as int) =~= sub_layouts@);
            while i < sub_layouts.len()
                invariant
                    0 <= i <= sub_layouts@.len(),
                    self.sub == Some(*sub_layouts),
                    match_point(*self, file_extension@) == match_point_in(
                        sub_layouts@.subrange(i as int, sub_layouts@.len() as int),
                        file_extension@,
                    ),
                decreases sub_layouts@.len() - i,
            {
                let ghost rest = sub_layouts@.subrange(i as int, sub_layouts@.len() as int);
                assert(rest[0] == sub_layouts@[i as int]);
                assert(rest.subrange(1, rest.len() as int) =~= sub_layouts@.subrange(
                    i + 1,
                    sub_layouts@.len() as int,
                ));
                assert(decreases_to!(*self => sub_layouts@[i as int]));
                if let Some(point) = sub_layouts[i].find_matching(file_extension) {
                    return Some(point);
                }
                i = i + 1;
            }
        }
        None
    }

    /// The point `@name` of the first mod directory, in pre-order starting
    /// at this node, whose accepted extensions hold `file_extension`.
    pub fn find_matching_moddir_point(&self, file_extension: &str) -> (r: Option<String>)
        ensures
            opt_chars(r) == match_point(*self, file_extension@),
    {
        let ext = String::from_str(file_extension);
        self.find_matching(&ext)
    }
}

impl Profile {
    /// A profile for the game `name` installed at `path`, whose layout holds
    /// one mod directory, `mods`, for common archive and text files.
    pub fn new(name: &str, path: &str) -> (r: Self)
        ensures
            r.game.name@ == name@,
            r.game.path@ == path@,
            r.layout@.len() == 1,
            r.layout@[0].name@ == "mods"@,
            r.layout@[0].node_type == LayoutType::Moddir,
            r.layout@[0].sub is None,
            r.layout@[0].mime matches Some(m) && m@.map_values(|e: String| e@) == seq![
                "txt"@,
                "zip"@,
                "rar"@,
                "7z"@,
                "tar"@,
            ],
    {
        let mime = vec![
            String::from_str("txt"),
            String::from_str("zip"),
            String::from_str("rar"),
            String::from_str("7z"),
            String::from_str("tar"),
        ];
        let r = Profile {
            game: Game { name: String::from_str(name), path: String::from_str(path) },
            layout: vec![
                Layout {
                    name: String::from_str("mods"),
                    node_type: LayoutType::Moddir,
                    sub: None,
                    mime: Some(mime),
                },
            ],
        };
        assert(r.layout@[0].mime->0@.map_values(|e: String| e@) =~= seq![
            "txt"@,
            "zip"@,
            "rar"@,
            "7z"@,
            "tar"@,
        ]);
        r
    }

    /// The names of every mod directory of the layout, in pre-order.
    pub fn get_moddir_names(&self) -> (r: Vec<String>)
        ensures
            r@ == moddir_names(self.layout@),
    {
        let mut moddir_names = Vec::new();
        self.collect_moddir_names(&self.layout, &mut moddir_names);
        assert(moddir_names@ =~= crate::profile::moddir_names(self.layout@));
        moddir_names
    }

    /// Appends the names of the mod directories among `layouts`, in pre-order.
    fn collect_moddir_names(&self, layouts: &Vec<Layout>, moddir_names: &mut Vec<String>)
        ensures
            final(moddir_names)@ == old(moddir_names)@ + crate::profile::moddir_names(layouts@),
        decreases layouts@,
    {
        let ghost start = moddir_names@;
        let mut i: usize = 0;
        assert(layouts@.subrange(0, layouts@.len() as int) =~= layouts@);
        assert(start + crate::profile::moddir_names(layouts@) =~= moddir_names@
            + crate::profile::moddir_names(layouts@.subrange(0, layouts@.len() as int)));
        while i < layouts.len()
            invariant
                0 <= i <= layouts@.len(),
                start + crate::profile::moddir_names(layouts@) == moddir_names@
                    + crate::profile::moddir_names(
                    layouts@.subrange(i as int, layouts@.len() as int),
                ),
            decreases layouts@.len() - i,
        {
            let ghost rest = layouts@.subrange(i as int, layouts@.len() as int);
            let ghost before = moddir_names@;
            assert(rest[0] == layouts@[i as int]);
            assert(rest.subrange(1, rest.len() as int) =~= layouts@.subrange(
                i + 1,
                layouts@.len() as int,
            ));
            let layout = &layouts[i];
            if let LayoutType::Moddir = layout.node_type {
                moddir_names.push(layout.name.clone());
            }
            let ghost own = moddir_names@.subrange(before.len() as int, moddir_names@.len() as int);
            assert(moddir_names@ =~= before + own);
            if let Some(sub) = &layout.sub {
                assert(decreases_to!(layouts@ => layouts@[i as int]));
                self.collect_moddir_names(sub, moddir_names);
            }
            let ghost below = if layout.sub is Some {
                crate::profile::moddir_names(layout.sub->0@)
            } else {
                Seq::empty()
            };
            assert(moddir_names@ =~= before + own + below);
            assert(crate::profile::moddir_names(rest) =~= own + below
                + crate::profile::moddir_names(layouts@.subrange(i + 1, layouts@.len() as int)));
            i = i + 1;
        }
        assert(layouts@.subrange(i as int, layouts@.len() as int) =~= Seq::<Layout>::empty());
        assert(moddir_names@ =~= start + crate::profile::moddir_names(layouts@));
    }

    /// Resolves a placement point to a path relative to the game's
    /// installation: `None` for an empty point or an unknown `@name`, the
    /// path of the first mod directory so named for `@name`, and any other
    /// point unchanged.
    pub fn resolve_point(&self, point: &str) -> (r: Option<String>)
        ensures
            opt_chars(r) == resolve(self.layout@, point@),
    {
        let n = point.unicode_len();
        if n == 0 {
            return None;
        }
        if point.get_char(0) == '@' {
            let moddir_name = String::from_str(point.substring_char(1, n));
            let path = String::new();
            self.find_moddir_path(&self.layout, &moddir_name, &path)
        } else {
            Some(String::from_str(point))
        }
    }
    /// Finds the path of the first mod directory named `moddir_name` among
    /// `layouts`, whose paths are joined below `current_path`.
    fn find_moddir_path(&self, layouts: &Vec<Layout>, moddir_name: &String, current_path: &String)
        -> (r: Option<String>)
        ensures
            opt_chars(r) == moddir_path(layouts@, moddir_name@, current_path@),
        decreases layouts@,
    {
        let mut i: usize = 0;
        assert(layouts@.subrange(0, layouts@.len() as int) =~= layouts@);
        while i < layouts.len()
            invariant
                0 <= i <= layouts@.len(),
                moddir_path(layouts@, moddir_name@, current_path@) == moddir_path(
                    layouts@.subrange(i as int, layouts@.len() as int),
                    moddir_name@,
                    current_path@,
                ),
            decreases layouts@.len() - i,
        {
            let ghost rest = layouts@.subrange(i as int, layouts@.len() as int);
            assert(rest[0] == layouts@[i as int]);
            assert(rest.subrange(1, rest.len() as int) =~= layouts@.subrange(
                i + 1,
                layouts@.len() as int,
            ));
            let layout = &layouts[i];
            let here = join_path(current_path.as_str(), layout.name.as_str());
            if layout.name == *moddir_name {
                if let LayoutType::Moddir = layout.node_type {
                    return Some(here);
                }
            }
            if let Some(sub) = &layout.sub {
                assert(decreases_to!(layouts@ => layouts@[i as int]));
                if let Some(found) = self.find_moddir_path(sub, moddir_name, &here) {
                    return Some(found);
                }
            }
            i = i + 1;
        }
        None
    }
}

} // verus!
