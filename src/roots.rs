use vstd::prelude::*;

verus! {

/// The pieces of `s` between commas, in order; `s` with no comma is one piece.
pub open spec fn split_commas(s: Seq<char>) -> Seq<Seq<char>>
    decreases s.len(),
{
    if s.len() == 0 {
        seq![Seq::<char>::empty()]
    } else {
        let before = split_commas(s.drop_last());
        if s.last() == ',' {
            before.push(Seq::<char>::empty())
        } else {
            before.update(before.len() - 1, before.last().push(s.last()))
        }
    }
}

pub proof fn lemma_split_commas_nonempty(s: Seq<char>)
    ensures
        split_commas(s).len() >= 1,
    decreases s.len(),
{
    if s.len() > 0 {
        lemma_split_commas_nonempty(s.drop_last());
    }
}

/// The roots used when the configuration names none.
pub open spec fn default_roots() -> Seq<Seq<char>> {
    seq!["./pages"@, "./assets"@, "./styles"@, "."@]
}

/// The root substituted for an empty list: the process's current directory.
pub open spec fn current_dir() -> Seq<char> {
    "."@
}

pub open spec fn views_of(v: Seq<String>) -> Seq<Seq<char>> {
    v.map_values(|s: String| s@)
}

/// Splits a comma-separated list of directories.
pub fn split_list(s: &str) -> (r: Vec<String>)
    ensures
        views_of(r@) == split_commas(s@),
{
    let n = s.unicode_len();
    let mut parts: Vec<String> = Vec::new();
    let mut start: usize = 0;
    let mut i: usize = 0;
    proof {
        assert(s@.subrange(0, 0) =~= Seq::<char>::empty());
        assert(views_of(parts@) =~= Seq::<Seq<char>>::empty());
        assert(seq![Seq::<char>::empty()] =~= Seq::<Seq<char>>::empty().push(Seq::<char>::empty()));
    }
    while i < n
        invariant
            n == s@.len(),
            start <= i <= n,
            split_commas(s@.subrange(0, i as int)) == views_of(parts@).push(
                s@.subrange(start as int, i as int),
            ),
        decreases n - i,
    {
        proof {
            let pre = s@.subrange(0, i + 1);
            assert(pre.drop_last() =~= s@.subrange(0, i as int));
            assert(pre.last() == s@[i as int]);
            lemma_split_commas_nonempty(s@.subrange(0, i as int));
        }
        if s.get_char(i) == ',' {
            let piece = String::from_str(s.substring_char(start, i));
            proof {
                assert(views_of(parts@.push(piece)) =~= views_of(parts@).push(piece@));
                assert(s@.subrange((i + 1) as int, (i + 1) as int) =~= Seq::<char>::empty());
            }
            parts.push(piece);
            start = i + 1;
        } else {
            proof {
                assert(s@.subrange(start as int, i + 1) =~= s@.subrange(start as int, i as int).push(
                    s@[i as int],
                ));
                assert(views_of(parts@).push(s@.subrange(start as int, i as int)).update(
                    views_of(parts@).len() as int,
                    s@.subrange(start as int, i + 1),
                ) =~= views_of(parts@).push(s@.subrange(start as int, i + 1)));
            }
        }
        i = i + 1;
    }
    let piece = String::from_str(s.substring_char(start, n));
    proof {
        assert(s@.subrange(0, n as int) =~= s@);
        assert(views_of(parts@.push(piece)) =~= views_of(parts@).push(piece@));
    }
    parts.push(piece);
    parts
}

/// The ordered content roots: first match wins. Never empty; fixed once built.
pub struct ContentRootSet {
    roots: Vec<String>,
}

impl View for ContentRootSet {
    type V = Seq<Seq<char>>;

    closed spec fn view(&self) -> Seq<Seq<char>> {
        views_of(self.roots@)
    }
}

/// The roots that a list of directories gives: the list itself, or the
/// current directory alone where the list is empty.
pub open spec fn roots_of(dirs: Seq<Seq<char>>) -> Seq<Seq<char>> {
    if dirs.len() == 0 {
        seq![current_dir()]
    } else {
        dirs
    }
}

/// The roots that the configuration value gives: its comma-separated pieces,
/// or the default roots where no value is set.
pub open spec fn configured_roots(value: Option<Seq<char>>) -> Seq<Seq<char>> {
    match value {
        Some(s) => roots_of(split_commas(s)),
        None => default_roots(),
    }
}

impl ContentRootSet {
    pub open spec fn wf(&self) -> bool {
        self@.len() >= 1
    }

    /// Builds the set from an ordered list; touches no filesystem.
    pub fn new(dirs: Vec<String>) -> (r: ContentRootSet)
        ensures
            r.wf(),
            r@ == roots_of(views_of(dirs@)),
    {
        if dirs.len() == 0 {
            let mut roots: Vec<String> = Vec::new();
            roots.push(String::from_str("."));
            assert(views_of(roots@) =~= seq![current_dir()]);
            ContentRootSet { roots }
        } else {
            ContentRootSet { roots: dirs }
        }
    }

    /// Builds the set from the configuration value, if one is set.
    pub fn from_config(value: Option<&str>) -> (r: ContentRootSet)
        ensures
            r.wf(),
            r@ == configured_roots(
                match value {
                    Some(s) => Some(s@),
                    None => None,
                },
            ),
    {
        match value {
            Some(s) => ContentRootSet::new(split_list(s)),
            None => {
                let mut dirs: Vec<String> = Vec::new();
                dirs.push(String::from_str("./pages"));
                dirs.push(String::from_str("./assets"));
                dirs.push(String::from_str("./styles"));
                dirs.push(String::from_str("."));
                assert(views_of(dirs@) =~= default_roots());
                ContentRootSet::new(dirs)
            },
        }
    }

    pub fn len(&self) -> (r: usize)
        ensures
            r == self@.len(),
    {
        self.roots.len()
    }

    /// The root at position `i`, in configured order.
    pub fn get(&self, i: usize) -> (r: &str)
        requires
            i < self@.len(),
        ensures
            r@ == self@[i as int],
    {
        self.roots[i].as_str()
    }
}

} // verus!
