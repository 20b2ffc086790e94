use vstd::prelude::*;

use crate::strutil::{lemma_str_views_push, str_eq, str_views};

verus! {

/// One contributor identity: a canonical name and the aliases that
/// stand for it.
#[derive(Debug, Clone)]
pub struct Author {
    pub name: String,
    pub alias: Vec<String>,
}

pub struct AuthorView {
    pub name: Seq<char>,
    pub alias: Seq<Seq<char>>,
}

impl View for Author {
    type V = AuthorView;

    open spec fn view(&self) -> AuthorView {
        AuthorView { name: self.name@, alias: str_views(self.alias@) }
    }
}

/// One configured repository: where to fetch it, the credentials to
/// use, the branches to walk, the identities to resolve and the path
/// patterns that restrict its diffs.
#[derive(Debug, Clone)]
pub struct Repo {
    pub url: String,
    pub username: Option<String>,
    pub password: Option<String>,
    pub branches: Vec<String>,
    pub authors: Vec<Author>,
    pub pathspec: Vec<String>,
}

pub struct RepoView {
    pub url: Seq<char>,
    pub username: Option<Seq<char>>,
    pub password: Option<Seq<char>>,
    pub branches: Seq<Seq<char>>,
    pub authors: Seq<AuthorView>,
    pub pathspec: Seq<Seq<char>>,
}

impl View for Repo {
    type V = RepoView;

    open spec fn view(&self) -> RepoView {
        RepoView {
            url: self.url@,
            username: match self.username {
                Some(u) => Some(u@),
                None => None,
            },
            password: match self.password {
                Some(p) => Some(p@),
                None => None,
            },
            branches: str_views(self.branches@),
            authors: self.authors@.map_values(|a: Author| a@),
            pathspec: str_views(self.pathspec@),
        }
    }
}

/// A whole run's configuration: the output format, the alias table
/// and the repositories.
#[derive(Debug)]
pub struct Config {
    pub output: String,
    pub authors: Vec<Author>,
    pub repos: Vec<Repo>,
}

/// The characters of `s` after its last `'/'`; all of `s` when it has
/// none.
pub open spec fn after_last_slash(s: Seq<char>) -> Seq<char>
    decreases s.len(),
{
    if s.len() == 0 {
        Seq::empty()
    } else if s.last() == '/' {
        Seq::empty()
    } else {
        after_last_slash(s.drop_last()).push(s.last())
    }
}

/// The characters of `s` before its first `'.'`; all of `s` when it
/// has none.
pub open spec fn before_first_dot(s: Seq<char>) -> Seq<char>
    decreases s.len(),
{
    if s.len() == 0 {
        Seq::empty()
    } else if s.first() == '.' {
        Seq::empty()
    } else {
        seq![s.first()] + before_first_dot(s.drop_first())
    }
}

/// The name a repository takes from its url: the piece after the last
/// `'/'`, cut before its first `'.'`.
pub open spec fn repo_name_spec(url: Seq<char>) -> Seq<char> {
    before_first_dot(after_last_slash(url))
}

proof fn lemma_after_last_slash(s: Seq<char>, k: int)
    requires
        0 <= k <= s.len(),
        forall|j: int| k <= j < s.len() ==> s[j] != '/',
        k == 0 || s[k - 1] == '/',
    ensures
        after_last_slash(s) == s.skip(k),
    decreases s.len(),
{
    if s.len() == 0 {
        assert(after_last_slash(s) =~= s.skip(k));
    } else if s.last() == '/' {
        assert(k == s.len());
        assert(after_last_slash(s) =~= s.skip(k));
    } else {
        assert(k < s.len());
        lemma_after_last_slash(s.drop_last(), k);
        assert(after_last_slash(s) =~= s.skip(k));
    }
}

proof fn lemma_before_first_dot(s: Seq<char>, m: int)
    requires
        0 <= m <= s.len(),
        forall|j: int| 0 <= j < m ==> s[j] != '.',
        m == s.len() || s[m] == '.',
    ensures
        before_first_dot(s) == s.take(m),
    decreases s.len(),
{
    if s.len() == 0 {
        assert(before_first_dot(s) =~= s.take(m));
    } else if s.first() == '.' {
        assert(m == 0);
        assert(before_first_dot(s) =~= s.take(m));
    } else {
        assert(m >= 1);
        lemma_before_first_dot(s.drop_first(), m - 1);
        assert(s.drop_first().take(m - 1) =~= s.take(m).drop_first());
        assert(before_first_dot(s) =~= s.take(m));
    }
}

/// The first author, in declared order, whose canonical name or alias
/// list holds `raw`; the canonical name of that author.
pub open spec fn lookup_author(authors: Seq<AuthorView>, raw: Seq<char>) -> Option<Seq<char>>
    decreases authors.len(),
{
    if authors.len() == 0 {
        None
    } else if authors.first().name == raw || authors.first().alias.contains(raw) {
        Some(authors.first().name)
    } else {
        lookup_author(authors.drop_first(), raw)
    }
}

/// The canonical identity of a raw author name: the alias table's
/// entry when it has one, the raw name itself otherwise.
pub open spec fn resolve_author(authors: Seq<AuthorView>, raw: Seq<char>) -> Seq<char> {
    match lookup_author(authors, raw) {
        Some(name) => name,
        None => raw,
    }
}

impl Repo {
    /// The repository's local name, read from its url.
    pub fn repo_name(&self) -> (r: &str)
        ensures
            r@ == repo_name_spec(self.url@),
    {
        let u = self.url.as_str();
        let len = u.unicode_len();
        let mut start: usize = 0;
        let mut i: usize = 0;
        while i < len
            invariant
                len == u@.len(),
                0 <= i <= len,
                start <= i,
                forall|j: int| start <= j < i ==> u@[j] != '/',
                start == 0 || u@[start - 1] == '/',
            decreases len - i,
        {
            if u.get_char(i) == '/' {
                start = i + 1;
            }
            i = i + 1;
        }
        let mut end: usize = start;
        while end < len && u.get_char(end) != '.'
            invariant
                len == u@.len(),
                start <= end <= len,
                forall|j: int| start <= j < end ==> u@[j] != '.',
            decreases len - end,
        {
            end = end + 1;
        }
        let r = u.substring_char(start, end);
        proof {
            lemma_after_last_slash(u@, start as int);
            lemma_before_first_dot(u@.skip(start as int), end - start);
            assert(u@.skip(start as int).take(end - start) =~= u@.subrange(
                start as int,
                end as int,
            ));
        }
        r
    }

    /// The configured user name, or the empty string for anonymous
    /// access.
    pub fn username(&self) -> (r: &str)
        ensures
            match self.username {
                Some(u) => r@ == u@,
                None => r@ == Seq::<char>::empty(),
            },
    {
        match &self.username {
            Some(u) => u.as_str(),
            None => {
                let r = "";
                proof {
                    reveal_strlit("");
                    assert(r@ =~= Seq::<char>::empty());
                }
                r
            },
        }
    }

    /// The configured password, or the empty string for anonymous
    /// access.
    pub fn password(&self) -> (r: &str)
        ensures
            match self.password {
                Some(p) => r@ == p@,
                None => r@ == Seq::<char>::empty(),
            },
    {
        match &self.password {
            Some(p) => p.as_str(),
            None => {
                let r = "";
                proof {
                    reveal_strlit("");
                    assert(r@ =~= Seq::<char>::empty());
                }
                r
            },
        }
    }

    /// Every name this repository's authors go by: for each author in
    /// order, the canonical name and then the aliases.
    pub fn get_authors(&self) -> (r: Vec<String>)
        ensures
            str_views(r@) == authors_flat(self@.authors),
    {
        let mut r: Vec<String> = Vec::new();
        let mut i: usize = 0;
        proof {
            assert(str_views(r@) =~~= authors_flat(self@.authors.take(0)));
        }
        while i < self.authors.len()
            invariant
                i <= self.authors.len(),
                self@.authors.len() == self.authors@.len(),
                forall|k: int| 0 <= k < self.authors@.len() ==> self@.authors[k]
                    == #[trigger] self.authors@[k]@,
                str_views(r@) == authors_flat(self@.authors.take(i as int)),
            decreases self.authors.len() - i,
        {
            let a = &self.authors[i];
            let ghost prev = r@;
            r.push(a.name.clone());
            proof {
                lemma_str_views_push(prev, self.authors@[i as int].name);
                assert(a@.alias.take(0) =~= Seq::<Seq<char>>::empty());
                assert(str_views(r@) =~= authors_flat(self@.authors.take(i as int)) + seq![
                    a@.name,
                ] + a@.alias.take(0));
            }
            let mut j: usize = 0;
            while j < a.alias.len()
                invariant
                    j <= a.alias.len(),
                    a@.alias.len() == a.alias@.len(),
                    forall|k: int| 0 <= k < a.alias@.len() ==> a@.alias[k]
                        == #[trigger] a.alias@[k]@,
                    str_views(r@) == authors_flat(self@.authors.take(i as int)) + seq![a@.name]
                        + a@.alias.take(j as int),
                decreases a.alias.len() - j,
            {
                let ghost prev2 = r@;
                r.push(a.alias[j].clone());
                proof {
                    let jj = j as int;
                    lemma_str_views_push(prev2, a.alias@[jj]);
                    assert(a@.alias.take(jj + 1) =~= a@.alias.take(jj).push(a@.alias[jj]));
                    assert(str_views(r@) =~= authors_flat(self@.authors.take(i as int)) + seq![
                        a@.name,
                    ] + a@.alias.take(jj + 1));
                }
                j = j + 1;
            }
            proof {
                assert(a@.alias.take(a.alias@.len() as int) =~= a@.alias);
                assert(self@.authors.take(i + 1).drop_last() =~= self@.authors.take(i as int));
                assert(str_views(r@) =~~= authors_flat(self@.authors.take(i + 1)));
            }
            i = i + 1;
        }
        proof {
            assert(self@.authors.take(self.authors@.len() as int) =~= self@.authors);
        }
        r
    }

    /// Looks `alias` up in the repository's author table: the
    /// canonical name of the first author that carries it, and
    /// nothing when no author does.
    pub fn map_alias_to_name(&self, alias: &str) -> (r: Option<String>)
        ensures
            match r {
                Some(name) => lookup_author(self@.authors, alias@) == Some(name@),
                None => lookup_author(self@.authors, alias@) is None,
            },
    {
        lookup_alias(&self.authors, alias)
    }
}

/// The author views of an author list.
pub open spec fn author_views(s: Seq<Author>) -> Seq<AuthorView> {
    s.map_values(|a: Author| a@)
}

/// Looks `alias` up in an author list: the canonical name of the
/// first author whose name or alias list carries it.
pub fn lookup_alias(authors: &Vec<Author>, alias: &str) -> (r: Option<String>)
    ensures
        match r {
            Some(name) => lookup_author(author_views(authors@), alias@) == Some(name@),
            None => lookup_author(author_views(authors@), alias@) is None,
        },
{
    let ghost gauthors = author_views(authors@);
    let mut i: usize = 0;
    proof {
        assert(gauthors.skip(0) =~= gauthors);
    }
    while i < authors.len()
        invariant
            i <= authors.len(),
            gauthors == author_views(authors@),
            gauthors.len() == authors@.len(),
            forall|k: int| 0 <= k < authors@.len() ==> gauthors[k]
                == #[trigger] authors@[k]@,
            lookup_author(gauthors, alias@) == lookup_author(
                gauthors.skip(i as int),
                alias@,
            ),
        decreases authors.len() - i,
    {
        let a = &authors[i];
        proof {
            assert(a@ == gauthors[i as int]);
            assert(gauthors.skip(i as int).first() == gauthors[i as int]);
        }
        if str_eq(a.name.as_str(), alias) {
            proof {
                assert(gauthors.skip(i as int).len() > 0);
                assert(gauthors.skip(i as int).first().name == alias@);
                assert(lookup_author(gauthors.skip(i as int), alias@) == Some(a@.name));
            }
            return Some(a.name.clone());
        }
        let mut j: usize = 0;
        while j < a.alias.len()
            invariant
                j <= a.alias.len(),
                i < authors@.len(),
                gauthors == author_views(authors@),
                gauthors.len() == authors@.len(),
                a@ == gauthors[i as int],
                lookup_author(gauthors, alias@) == lookup_author(
                    gauthors.skip(i as int),
                    alias@,
                ),
                a@.alias.len() == a.alias@.len(),
                forall|k: int| 0 <= k < a.alias@.len() ==> a@.alias[k]
                    == #[trigger] a.alias@[k]@,
                forall|k: int| 0 <= k < j ==> a@.alias[k] != alias@,
            decreases a.alias.len() - j,
        {
            if str_eq(a.alias[j].as_str(), alias) {
                proof {
                    assert(a@.alias[j as int] == alias@);
                    assert(a@.alias.contains(alias@));
                    assert(gauthors.skip(i as int).first() == gauthors[i as int]);
                    assert(lookup_author(gauthors.skip(i as int), alias@) == Some(
                        a@.name,
                    ));
                }
                return Some(a.name.clone());
            }
            j = j + 1;
        }
        proof {
            assert(!a@.alias.contains(alias@));
            assert(gauthors.skip(i as int).drop_first() =~= gauthors.skip(i + 1));
        }
        i = i + 1;
    }
    proof {
        assert(gauthors.skip(authors@.len() as int).len() == 0);
    }
    None
}

/// For each author in order, the canonical name followed by the
/// aliases, all in one sequence.
pub open spec fn authors_flat(authors: Seq<AuthorView>) -> Seq<Seq<char>>
    decreases authors.len(),
{
    if authors.len() == 0 {
        Seq::empty()
    } else {
        authors_flat(authors.drop_last()) + seq![authors.last().name] + authors.last().alias
    }
}

} // verus!
