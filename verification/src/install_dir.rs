use vstd::prelude::*;

use crate::text::{
    chars_of, rfind, rfind_char, lemma_rfind_bounds, lemma_rfind_take, split_on, string_of, sub_chars, str_eq, concat,
};

verus! {

/// Where the ROM directories live when nothing else is configured.
pub const DEFAULT_BASE_DIR: &'static str = "/mnt/SDCARD/Roms";

/// A path extended by one component, as `Path::join` does it on Unix:
/// an absolute component replaces the path, otherwise a `/` separates the two
/// unless the path is empty or already ends with one.
pub open spec fn path_join(base: Seq<char>, name: Seq<char>) -> Seq<char> {
    if name.len() > 0 && name[0] == '/' {
        name
    } else if base.len() == 0 || base.last() == '/' {
        base + name
    } else {
        base + seq!['/'] + name
    }
}

/// The pieces between `/` that count as components of a path, as
/// `Path::components` reads them on Unix: empty pieces (from repeated or
/// trailing separators) are skipped, and so is a `.` piece, except as the
/// very first piece of a relative path.
pub open spec fn kept_pieces(pieces: Seq<Seq<char>>) -> Seq<Seq<char>>
    decreases pieces.len(),
{
    if pieces.len() == 0 {
        pieces
    } else {
        let rest = kept_pieces(pieces.drop_last());
        let last = pieces.last();
        if last.len() == 0 || (last == seq!['.'] && pieces.len() > 1) {
            rest
        } else {
            rest.push(last)
        }
    }
}

/// A path as `Path` compares it: whether it starts at the root, and its
/// components after the root.
pub open spec fn path_components(p: Seq<char>) -> (bool, Seq<Seq<char>>) {
    (p.len() > 0 && p[0] == '/', kept_pieces(split_on(p, '/')))
}

/// What `Path::parent` gives, compared component by component: the path
/// without its last component; none for a path with no component after the
/// root (the root itself, or the empty path).
pub open spec fn parent_components(p: Seq<char>) -> Option<(bool, Seq<Seq<char>>)> {
    let (rooted, comps) = path_components(p);
    if comps.len() == 0 {
        None
    } else {
        Some((rooted, comps.drop_last()))
    }
}

/// Joining one normal component (not empty, no `/`, not `.`) to a directory
/// adds exactly that component to it, whatever form the directory is written
/// in; so the parent of the joined path is the directory itself.
pub proof fn law_join_adds_component(dir: Seq<char>, name: Seq<char>)
    requires
        name.len() > 0,
        forall|i: int| 0 <= i < name.len() ==> name[i] != '/',
        name != seq!['.'],
    ensures
        path_components(path_join(dir, name)) == (path_components(dir).0, path_components(dir).1.push(name)),
        parent_components(path_join(dir, name)) == Some(path_components(dir)),
{
    let g = path_join(dir, name);
    if dir.len() == 0 {
        assert(g == name);
        lemma_rfind_take(g, '/', 0);
        assert(rfind(g, '/') == -1);
        assert(split_on(g, '/') == seq![name]);
        assert(seq![name].drop_last() =~= Seq::<Seq<char>>::empty());
        assert(rfind(dir, '/') == -1);
        assert(split_on(dir, '/') == seq![dir]);
        assert(seq![dir].drop_last() =~= Seq::<Seq<char>>::empty());
        assert(kept_pieces(Seq::<Seq<char>>::empty()) =~= Seq::<Seq<char>>::empty());
        assert(kept_pieces(seq![dir]) =~= Seq::<Seq<char>>::empty());
        assert(kept_pieces(seq![name]) =~= Seq::<Seq<char>>::empty().push(name));
    } else {
        let k: int = if dir.last() == '/' { dir.len() - 1 } else { dir.len() as int };
        let prefix = if dir.last() == '/' { dir } else { dir + seq!['/'] };
        assert(g =~= prefix + name);
        assert(g[0] == dir[0]);
        assert forall|j: int| k + 1 <= j < g.len() implies g[j] != '/' by {
            assert(g[j] == name[j - k - 1]);
        }
        lemma_rfind_take(g, '/', k + 1);
        assert(g.take(k + 1).last() == '/');
        assert(rfind(g.take(k + 1), '/') == k);
        assert(g.subrange(k + 1, g.len() as int) =~= name);
        assert(split_on(g, '/') == split_on(g.take(k), '/').push(name));
        let before = split_on(g.take(k), '/');
        assert(split_on(g, '/').drop_last() =~= before);
        if dir.last() == '/' {
            assert(g.take(k) =~= dir.take(k));
            assert(rfind(dir, '/') == k);
            assert(dir.subrange(k + 1, dir.len() as int) =~= Seq::<char>::empty());
            assert(split_on(dir, '/') == split_on(dir.take(k), '/').push(Seq::<char>::empty()));
            assert(split_on(dir, '/').drop_last() =~= before);
            assert(kept_pieces(split_on(dir, '/')) == kept_pieces(before));
        } else {
            assert(g.take(k) =~= dir);
        }
        assert(kept_pieces(split_on(g, '/')) == kept_pieces(before).push(name));
    }
}

/// Joins a path and one component (Unix rules, see `path_join`).
pub fn join_path(base: &str, name: &str) -> (res: String)
    ensures
        res@ == path_join(base@, name@),
{
    let b = chars_of(base);
    let n = chars_of(name);
    if n.len() > 0 && n[0] == '/' {
        return string_of(&n);
    }
    if b.len() == 0 || b[b.len() - 1] == '/' {
        concat(base, name)
    } else {
        let with_sep = concat(base, "/");
        proof { reveal_strlit("/"); }
        let res = concat(with_sep.as_str(), name);
        assert(res@ =~= base@ + seq!['/'] + name@);
        res
    }
}

/// The platform code that a ROM directory name ends with: the text inside its
/// last parentheses, when that text is not empty.
pub open spec fn platform_code(dir_name: Seq<char>) -> Option<Seq<char>> {
    let open = rfind(dir_name, '(');
    let close = rfind(dir_name, ')');
    if open >= 0 && close > open + 1 {
        Some(dir_name.subrange(open + 1, close))
    } else {
        None
    }
}

/// The platform code of a directory name such as `Sony PlayStation (PS)`.
pub fn extract_platform_code(dir_name: &str) -> (res: Option<String>)
    ensures
        match res {
            Some(code) => platform_code(dir_name@) == Some(code@),
            None => platform_code(dir_name@) is None,
        },
{
    let v = chars_of(dir_name);
    proof {
        lemma_rfind_bounds(v@, '(');
        lemma_rfind_bounds(v@, ')');
    }
    let open = match rfind_char(&v, '(') {
        Some(i) => i,
        None => return None,
    };
    let close = match rfind_char(&v, ')') {
        Some(i) => i,
        None => return None,
    };
    if close > open + 1 {
        let code = sub_chars(&v, open + 1, close);
        Some(string_of(&code))
    } else {
        None
    }
}

/// One entry of a directory, as a directory listing gives it.
#[derive(Debug, Clone)]
pub struct DirListingEntry {
    pub name: String,
    pub is_dir: bool,
    /// Whether the entry is a regular file (not a directory, link or other special file).
    pub is_file: bool,
}

/// The map that a sequence of insertions builds, later insertions winning.
pub open spec fn map_of(pairs: Seq<(String, String)>) -> Map<Seq<char>, Seq<char>>
    decreases pairs.len(),
{
    if pairs.len() == 0 {
        Map::empty()
    } else {
        map_of(pairs.drop_last()).insert(pairs.last().0@, pairs.last().1@)
    }
}

/// The platform directories found in a listing of `base`: each directory
/// whose name carries a platform code, under that code; for a code that two
/// directories carry, the one listed later.
pub open spec fn listing_dirs(base: Seq<char>, listing: Seq<DirListingEntry>) -> Map<Seq<char>, Seq<char>>
    decreases listing.len(),
{
    if listing.len() == 0 {
        Map::empty()
    } else {
        let e = listing.last();
        let rest = listing_dirs(base, listing.drop_last());
        if e.is_dir && platform_code(e.name@) is Some {
            rest.insert(platform_code(e.name@)->0, path_join(base, e.name@))
        } else {
            rest
        }
    }
}

/// A directory named `<name>(<code>)`, such as `Sony PlayStation (PS)`,
/// carries the platform code `code`, when the code is not empty and holds no
/// parenthesis.
pub proof fn law_platform_code_suffix(name: Seq<char>, code: Seq<char>)
    requires
        code.len() > 0,
        forall|i: int| 0 <= i < code.len() ==> code[i] != '(' && code[i] != ')',
    ensures
        platform_code(name + seq!['('] + code + seq![')']) == Some(code),
{
    let d = name + seq!['('] + code + seq![')'];
    let open = name.len() as int;
    assert(d.last() == ')');
    assert(rfind(d, ')') == d.len() - 1);
    assert forall|j: int| open + 1 <= j < d.len() implies d[j] != '(' by {
        if j < d.len() - 1 {
            assert(d[j] == code[j - open - 1]);
        }
    }
    lemma_rfind_take(d, '(', open + 1);
    assert(d.take(open + 1).last() == '(');
    assert(rfind(d.take(open + 1), '(') == open);
    assert(d.subrange(open + 1, d.len() - 1) =~= code);
}

/// A directory whose name carries a platform code is where the games of that
/// platform go, unless a directory listed after it carries the same code.
pub proof fn law_listing_finds_dir(base: Seq<char>, listing: Seq<DirListingEntry>, i: int)
    requires
        0 <= i < listing.len(),
        listing[i].is_dir,
        platform_code(listing[i].name@) is Some,
        forall|j: int| i < j < listing.len() && (#[trigger] listing[j]).is_dir
            ==> platform_code(listing[j].name@) != platform_code(listing[i].name@),
    ensures
        listing_dirs(base, listing).contains_key(platform_code(listing[i].name@)->0),
        listing_dirs(base, listing)[platform_code(listing[i].name@)->0] == path_join(base, listing[i].name@),
    decreases listing.len(),
{
    if i < listing.len() - 1 {
        let rest = listing.drop_last();
        assert forall|j: int| i < j < rest.len() && (#[trigger] rest[j]).is_dir
            implies platform_code(rest[j].name@) != platform_code(rest[i].name@) by {
            assert(rest[j] == listing[j]);
        }
        law_listing_finds_dir(base, rest, i);
        assert(listing.last() == listing[listing.len() - 1]);
    }
}

/// Only directories whose names carry a platform code are found: files and
/// other directories are passed over.
pub proof fn law_listing_only_coded_dirs(base: Seq<char>, listing: Seq<DirListingEntry>, code: Seq<char>)
    requires
        listing_dirs(base, listing).contains_key(code),
    ensures
        exists|i: int| 0 <= i < listing.len() && (#[trigger] listing[i]).is_dir
            && platform_code(listing[i].name@) == Some(code),
    decreases listing.len(),
{
    if listing.len() > 0 {
        let e = listing.last();
        if e.is_dir && platform_code(e.name@) == Some(code) {
            assert(listing[listing.len() - 1] == e);
        } else {
            law_listing_only_coded_dirs(base, listing.drop_last(), code);
            let i = choose|i: int| 0 <= i < listing.drop_last().len() && (#[trigger] listing.drop_last()[i]).is_dir
                && platform_code(listing.drop_last()[i].name@) == Some(code);
            assert(listing[i] == listing.drop_last()[i]);
        }
    }
}

/// Maps platform codes to the ROM directories that carry them.
pub struct InstallDirResolver {
    base_dir: String,
    dirs: Vec<(String, String)>,
}

proof fn lemma_map_of_lookup(pairs: Seq<(String, String)>, key: Seq<char>, i: int)
    requires
        0 <= i <= pairs.len(),
        forall|j: int| i <= j < pairs.len() ==> #[trigger] pairs[j].0@ != key,
    ensures
        map_of(pairs).contains_key(key) == map_of(pairs.take(i)).contains_key(key),
        map_of(pairs).contains_key(key) ==> map_of(pairs)[key] == map_of(pairs.take(i))[key],
    decreases pairs.len() - i,
{
    if i < pairs.len() {
        assert(pairs.drop_last().take(i) =~= pairs.take(i));
        assert forall|j: int| i <= j < pairs.drop_last().len() implies #[trigger] pairs.drop_last()[j].0@ != key by {
            assert(pairs.drop_last()[j] == pairs[j]);
        }
        lemma_map_of_lookup(pairs.drop_last(), key, i);
    } else {
        assert(pairs.take(i) =~= pairs);
    }
}

impl InstallDirResolver {
    /// Platform code to directory, as this resolver holds it.
    pub closed spec fn dir_map(&self) -> Map<Seq<char>, Seq<char>> {
        map_of(self.dirs@)
    }

    /// The base directory that was listed.
    pub closed spec fn base(&self) -> Seq<char> {
        self.base_dir@
    }

    /// A resolver built from a listing of the ROM base directory.
    pub fn from_listing(base_dir: String, listing: &Vec<DirListingEntry>) -> (res: Self)
        ensures
            res.base() == base_dir@,
            res.dir_map() == listing_dirs(base_dir@, listing@),
    {
        let mut dirs: Vec<(String, String)> = Vec::new();
        let mut i: usize = 0;
        while i < listing.len()
            invariant
                i <= listing.len(),
                map_of(dirs@) == listing_dirs(base_dir@, listing@.take(i as int)),
            decreases listing.len() - i,
        {
            let e = &listing[i];
            assert(listing@.take(i + 1).drop_last() =~= listing@.take(i as int));
            assert(listing@.take(i + 1).last() == listing@[i as int]);
            if e.is_dir {
                match extract_platform_code(e.name.as_str()) {
                    Some(code) => {
                        let path = join_path(base_dir.as_str(), e.name.as_str());
                        let ghost before = dirs@;
                        dirs.push((code, path));
                        assert(dirs@.drop_last() =~= before);
                    },
                    None => {},
                }
            }
            i = i + 1;
        }
        assert(listing@.take(listing.len() as int) =~= listing@);
        InstallDirResolver { base_dir, dirs }
    }

    /// The directory of the given platform code, if the listing had one.
    pub fn resolve(&self, platform: &str) -> (res: Option<String>)
        ensures
            match res {
                Some(p) => self.dir_map().contains_key(platform@) && p@ == self.dir_map()[platform@],
                None => !self.dir_map().contains_key(platform@),
            },
    {
        let mut i: usize = self.dirs.len();
        while i > 0
            invariant
                i <= self.dirs.len(),
                forall|j: int| i <= j < self.dirs@.len() ==> #[trigger] self.dirs@[j].0@ != platform@,
            decreases i,
        {
            if str_eq(self.dirs[i - 1].0.as_str(), platform) {
                proof {
                    lemma_map_of_lookup(self.dirs@, platform@, i as int);
                    assert(self.dirs@.take(i as int).drop_last() =~= self.dirs@.take(i - 1));
                }
                return Some(string_of(&chars_of(self.dirs[i - 1].1.as_str())));
            }
            i = i - 1;
        }
        proof {
            lemma_map_of_lookup(self.dirs@, platform@, 0);
            assert(self.dirs@.take(0) =~= Seq::<(String, String)>::empty());
        }
        None
    }

    /// The directory that a game of the given platform would have inside the platform directory.
    pub fn game_dir(&self, platform: &str, game_name: &str) -> (res: Option<String>)
        ensures
            match res {
                Some(p) => self.dir_map().contains_key(platform@)
                    && p@ == path_join(self.dir_map()[platform@], game_name@),
                None => !self.dir_map().contains_key(platform@),
            },
    {
        match self.resolve(platform) {
            Some(dir) => Some(join_path(dir.as_str(), game_name)),
            None => None,
        }
    }

    /// Whether no platform directory was found.
    pub fn is_empty(&self) -> (res: bool)
        ensures
            res == (self.dir_map() =~= Map::empty()),
    {
        proof {
            if self.dirs@.len() > 0 {
                assert(self.dir_map().contains_key(self.dirs@.last().0@));
            }
        }
        self.dirs.len() == 0
    }
}

/// A game directory lies in its platform directory: when the platform
/// resolves, the directory that `game_dir` gives for a game name that is one
/// normal component has, as `Path::parent` compares it, the platform
/// directory as its parent.
pub proof fn law_game_dir_parent(r: InstallDirResolver, platform: Seq<char>, name: Seq<char>)
    requires
        r.dir_map().contains_key(platform),
        name.len() > 0,
        forall|i: int| 0 <= i < name.len() ==> name[i] != '/',
        name != seq!['.'],
    ensures
        parent_components(path_join(r.dir_map()[platform], name)) == Some(path_components(r.dir_map()[platform])),
{
    law_join_adds_component(r.dir_map()[platform], name);
}

} // verus!
