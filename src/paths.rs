//! Text-level path helpers: splitting a search list, joining path pieces
//! and taking the last component of a path.
use vstd::prelude::*;

verus! {

/// The views of a sequence of strings.
pub open spec fn views(v: Seq<String>) -> Seq<Seq<char>> {
    v.map_values(|s: String| s@)
}

/// `s` cut at every `sep`. Empty pieces are kept, so there is always at
/// least one piece and `n` separators give `n + 1` pieces.
pub open spec fn split_spec(s: Seq<char>, sep: char) -> Seq<Seq<char>>
    decreases s.len(),
{
    if s.len() == 0 {
        seq![Seq::<char>::empty()]
    } else {
        let prev = split_spec(s.drop_last(), sep);
        if s.last() == sep {
            prev.push(Seq::<char>::empty())
        } else {
            prev.update(prev.len() - 1, prev.last().push(s.last()))
        }
    }
}

/// The pieces joined with `sep` between each two neighbours.
pub open spec fn join_spec(parts: Seq<Seq<char>>, sep: char) -> Seq<char>
    decreases parts.len(),
{
    if parts.len() == 0 {
        Seq::<char>::empty()
    } else if parts.len() == 1 {
        parts[0]
    } else {
        join_spec(parts.drop_last(), sep) + seq![sep] + parts.last()
    }
}

/// A path is absolute when it starts at the root.
pub open spec fn is_absolute_spec(p: Seq<char>) -> bool {
    p.len() > 0 && p[0] == '/'
}

/// `name` pushed onto `dir`: an absolute `name` replaces `dir`, an empty
/// `dir` adds nothing, and a separator is put between the two unless `dir`
/// already ends with one.
pub open spec fn push_spec(dir: Seq<char>, name: Seq<char>) -> Seq<char> {
    if is_absolute_spec(name) {
        name
    } else if dir.len() == 0 || dir.last() == '/' {
        dir + name
    } else {
        dir + seq!['/'] + name
    }
}

/// Components that name nothing: the empty piece between two separators
/// (or after a trailing one), and the current directory.
pub open spec fn is_blank_component(c: Seq<char>) -> bool {
    c.len() == 0 || c == seq!['.']
}

/// The last component of a path that is not blank.
pub open spec fn last_component(parts: Seq<Seq<char>>) -> Option<Seq<char>>
    decreases parts.len(),
{
    if parts.len() == 0 {
        None
    } else if is_blank_component(parts.last()) {
        last_component(parts.drop_last())
    } else {
        Some(parts.last())
    }
}

/// The final name of a path, if it has one: none for the root, for an empty
/// path, or for a path that ends in the parent directory.
pub open spec fn file_name_spec(p: Seq<char>) -> Option<Seq<char>> {
    match last_component(split_spec(p, '/')) {
        Some(n) => if n == seq!['.', '.'] {
            None
        } else {
            Some(n)
        },
        None => None,
    }
}

pub proof fn lemma_views_push(v: Seq<String>, x: String)
    ensures
        views(v.push(x)) == views(v).push(x@),
{
    assert(views(v.push(x)) =~= views(v).push(x@));
}

/// Cuts `s` at every `sep`.
pub fn split_on(s: &str, sep: char) -> (r: Vec<String>)
    ensures
        views(r@) == split_spec(s@, sep),
{
    let n = s.unicode_len();
    let mut parts: Vec<String> = Vec::new();
    let mut start: usize = 0;
    let mut i: usize = 0;
    proof {
        assert(s@.subrange(0, 0) =~= Seq::<char>::empty());
        assert(views(parts@) =~= Seq::<Seq<char>>::empty());
    }
    while i < n
        invariant
            n == s@.len(),
            start <= i <= n,
            split_spec(s@.subrange(0, i as int), sep) == views(parts@).push(
                s@.subrange(start as int, i as int),
            ),
        decreases n - i,
    {
        let c = s.get_char(i);
        let ghost prev = split_spec(s@.subrange(0, i as int), sep);
        proof {
            assert(s@.subrange(0, i + 1).drop_last() =~= s@.subrange(0, i as int));
            assert(s@.subrange(0, i + 1).last() == c);
        }
        if c == sep {
            let piece = s.substring_char(start, i);
            let owned = String::from_str(piece);
            proof {
                lemma_views_push(parts@, owned);
            }
            parts.push(owned);
            start = i + 1;
            proof {
                assert(s@.subrange(start as int, i + 1) =~= Seq::<char>::empty());
            }
        } else {
            proof {
                assert(s@.subrange(start as int, i as int).push(c) =~= s@.subrange(
                    start as int,
                    i + 1,
                ));
                assert(prev.update(prev.len() - 1, prev.last().push(c)) =~= views(parts@).push(
                    s@.subrange(start as int, i + 1),
                ));
            }
        }
        i = i + 1;
    }
    let last = s.substring_char(start, n);
    let owned = String::from_str(last);
    proof {
        lemma_views_push(parts@, owned);
        assert(s@.subrange(0, n as int) =~= s@);
    }
    parts.push(owned);
    parts
}

/// Joins the pieces with `sep` between each two neighbours.
pub fn join_with(parts: &Vec<String>, sep: &str) -> (r: String)
    requires
        sep@.len() == 1,
    ensures
        r@ == join_spec(views(parts@), sep@[0]),
{
    let mut r = String::new();
    let mut i: usize = 0;
    while i < parts.len()
        invariant
            sep@.len() == 1,
            i <= parts@.len(),
            r@ == join_spec(views(parts@.subrange(0, i as int)), sep@[0]),
        decreases parts@.len() - i,
    {
        let ghost before = views(parts@.subrange(0, i as int));
        proof {
            assert(views(parts@.subrange(0, i + 1)).drop_last() =~= before);
            assert(sep@ =~= seq![sep@[0]]);
        }
        if i > 0 {
            r.append(sep);
        }
        r.append(parts[i].as_str());
        i = i + 1;
        proof {
            if i == 1 {
                assert(r@ =~= views(parts@.subrange(0, 1))[0]);
            }
        }
    }
    proof {
        assert(parts@.subrange(0, i as int) =~= parts@);
    }
    r
}

/// Whether the path starts at the root.
pub fn is_absolute(p: &str) -> (r: bool)
    ensures
        r == is_absolute_spec(p@),
{
    p.unicode_len() > 0 && p.get_char(0) == '/'
}

/// `name` pushed onto `dir`, as a path buffer does it.
pub fn push_path(dir: &str, name: &str) -> (r: String)
    ensures
        r@ == push_spec(dir@, name@),
{
    if is_absolute(name) {
        return String::from_str(name);
    }
    let n = dir.unicode_len();
    let mut r = String::from_str(dir);
    if n > 0 && dir.get_char(n - 1) != '/' {
        r.append("/");
        proof {
            reveal_strlit("/");
        }
    }
    r.append(name);
    r
}

fn is_blank(c: &str) -> (r: bool)
    ensures
        r == is_blank_component(c@),
{
    let n = c.unicode_len();
    if n == 0 {
        return true;
    }
    let r = n == 1 && c.get_char(0) == '.';
    proof {
        if n == 1 && c@[0] == '.' {
            assert(c@ =~= seq!['.']);
        }
    }
    r
}

fn is_parent(c: &str) -> (r: bool)
    ensures
        r == (c@ == seq!['.', '.']),
{
    let r = c.unicode_len() == 2 && c.get_char(0) == '.' && c.get_char(1) == '.';
    proof {
        if r {
            assert(c@ =~= seq!['.', '.']);
        }
    }
    r
}

/// The final name of the path, or `None` where it has none.
pub fn file_name(p: &str) -> (r: Option<String>)
    ensures
        r matches Some(n) ==> file_name_spec(p@) == Some(n@),
        r is None ==> file_name_spec(p@) is None,
{
    let parts = split_on(p, '/');
    let ghost all = views(parts@);
    let mut k: usize = parts.len();
    proof {
        assert(all.subrange(0, k as int) =~= all);
    }
    while k > 0
        invariant
            k <= parts@.len(),
            all == views(parts@),
            last_component(all) == last_component(all.subrange(0, k as int)),
        ensures
            k == 0 || !is_blank_component(all[k - 1]),
            last_component(all) == last_component(all.subrange(0, k as int)),
        decreases k,
    {
        if !is_blank(parts[k - 1].as_str()) {
            break;
        }
        proof {
            assert(all.subrange(0, k as int).drop_last() =~= all.subrange(0, k - 1));
        }
        k = k - 1;
    }
    if k == 0 {
        return None;
    }
    let last = &parts[k - 1];
    proof {
        assert(all.subrange(0, k as int).last() == all[k - 1]);
    }
    if is_parent(last.as_str()) {
        None
    } else {
        Some(last.clone())
    }
}

} // verus!
