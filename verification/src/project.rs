//! Projects: the identity of a repository on a hosting service, read from a
//! shorthand identifier, with the remote address and the local directory
//! that follow from it.

use vstd::prelude::*;
use vstd::string::*;

use crate::address::{accepted, join_url, joined_url, ToUrl, UrlRejected};
use crate::source::{ParseError, Source};
use crate::text::{chars_of, cut_once, join2, join3, split_once};

verus! {

/// A repository of `user` named `repo` on the service `source`, with an
/// optional display name that takes no part in any derivation.
#[derive(Debug, PartialEq, Eq)]
pub struct Project {
    pub user: String,
    pub repo: String,
    pub name: Option<String>,
    pub source: Source,
}

/// A project as plain values.
pub struct ProjectView {
    pub user: Seq<char>,
    pub repo: Seq<char>,
    pub name: Option<Seq<char>>,
    pub source: Source,
}

impl View for Project {
    type V = ProjectView;

    open spec fn view(&self) -> ProjectView {
        ProjectView {
            user: self.user@,
            repo: self.repo@,
            name: match self.name {
                Some(name) => Some(name@),
                None => None,
            },
            source: self.source,
        }
    }
}

impl ProjectView {
    /// A project as parsing leaves it: user and repository are not empty.
    pub open spec fn well_formed(self) -> bool {
        self.user.len() > 0 && self.repo.len() > 0
    }

    /// The canonical path key: token, user and repository with `--` between
    /// them. It names the project's directory.
    pub open spec fn path_key(self) -> Seq<char> {
        self.source.token() + "--"@ + self.user + "--"@ + self.repo
    }

    /// The form in which a project is shown and searched: user, `/`,
    /// repository.
    pub open spec fn rendered(self) -> Seq<char> {
        self.user + "/"@ + self.repo
    }

    /// The directory of the project under `root`.
    pub open spec fn path_under(self, root: Seq<char>) -> Seq<char> {
        join_path(root, self.path_key())
    }

    /// The text of the remote address, as the `url` crate writes it: the
    /// rendered form resolved against the address of the service. `None`
    /// where the crate accepts no such address.
    pub open spec fn address(self) -> Option<Seq<char>> {
        joined_url(self.source.base_address(), self.rendered())
    }

    /// The question put to the user when the project has no directory.
    pub open spec fn missing_prompt(self) -> Seq<char> {
        self.rendered() + " is missing. Would you like to clone it"@
    }

    /// The reason given when `item` (the url, the path) of the project could
    /// not be had.
    pub open spec fn failure_notice(self, item: Seq<char>) -> Seq<char> {
        "Failed to parse "@ + item + " from "@ + self.rendered()
    }
}

/// What a clone needs: the remote address to fetch from and the directory to
/// fill.
#[derive(Debug, PartialEq, Eq)]
pub struct CloneRequest {
    pub url: String,
    pub path: String,
}

/// `name` as an entry of the directory `root`: one `/` stands between them,
/// unless `root` is empty or ends in one already.
pub open spec fn join_path(root: Seq<char>, name: Seq<char>) -> Seq<char> {
    if root.len() == 0 || root.last() == '/' {
        root + name
    } else {
        root + "/"@ + name
    }
}

/// What a shorthand identifier `<token>:<user>/<repo>` stands for. The text
/// is cut at its first `:`; what stands before must be a token. What follows
/// is cut at its first `/` into user and repository, neither of them empty.
/// Nothing is trimmed or decoded, and no character is refused.
pub open spec fn parse(shorthand: Seq<char>) -> Result<ProjectView, ParseError> {
    let (head, rest) = match split_once(shorthand, ':') {
        Some((head, rest)) => (head, Some(rest)),
        None => (shorthand, None),
    };
    match (Source::from_token(head), rest) {
        (None, _) => Err(ParseError::UnknownSource),
        (Some(_), None) => Err(ParseError::MalformedPath),
        (Some(source), Some(rest)) => match split_once(rest, '/') {
            None => Err(ParseError::MalformedPath),
            Some((user, repo)) => if user.len() == 0 || repo.len() == 0 {
                Err(ParseError::MalformedPath)
            } else {
                Ok(ProjectView { user, repo, name: None, source })
            },
        },
    }
}

impl Clone for Project {
    fn clone(&self) -> (copy: Self)
        ensures
            copy == *self,
    {
        Project {
            user: self.user.clone(),
            repo: self.repo.clone(),
            name: match &self.name {
                Some(name) => Some(name.clone()),
                None => None,
            },
            source: self.source,
        }
    }
}

impl Project {
    /// Reads a shorthand identifier. The project that comes of it is well
    /// formed and has no display name.
    pub fn from_str(s: &str) -> (parsed: Result<Project, ParseError>)
        ensures
            match parsed {
                Ok(project) => parse(s@) == Ok::<ProjectView, ParseError>(project@),
                Err(error) => parse(s@) == Err::<ProjectView, ParseError>(error),
            },
            parsed matches Ok(project) ==> project@.well_formed() && project.name is None,
    {
        let (head, rest) = match cut_once(s, ':') {
            Some((head, rest)) => (head, Some(rest)),
            None => (s, None),
        };
        let source = match Source::from_str(head) {
            Ok(source) => source,
            Err(error) => {
                return Err(error);
            },
        };
        let rest = match rest {
            Some(rest) => rest,
            None => {
                return Err(ParseError::MalformedPath);
            },
        };
        match cut_once(rest, '/') {
            None => Err(ParseError::MalformedPath),
            Some((user, repo)) => {
                if user.is_empty() || repo.is_empty() {
                    Err(ParseError::MalformedPath)
                } else {
                    Ok(
                        Project {
                            user: String::from_str(user),
                            repo: String::from_str(repo),
                            name: None,
                            source,
                        },
                    )
                }
            },
        }
    }

    /// The canonical path key.
    pub fn path_key(&self) -> (key: String)
        ensures
            key@ == self@.path_key(),
    {
        let key = String::from_str(self.source.token_str());
        let key = key.concat("--").concat(self.user.as_str());
        key.concat("--").concat(self.repo.as_str())
    }

    /// The form in which the project is shown and searched.
    pub fn to_string(&self) -> (shown: String)
        ensures
            shown@ == self@.rendered(),
    {
        join3(self.user.as_str(), "/", self.repo.as_str())
    }

    /// The question put to the user when the project has no directory.
    pub fn missing_prompt(&self) -> (prompt: String)
        ensures
            prompt@ == self@.missing_prompt(),
    {
        self.to_string().concat(" is missing. Would you like to clone it")
    }

    /// The reason given when `item` of the project could not be had.
    pub fn failure_notice(&self, item: &str) -> (notice: String)
        ensures
            notice@ == self@.failure_notice(item@),
    {
        let shown = self.to_string();
        join3("Failed to parse ", item, " from ").concat(shown.as_str())
    }

    /// What a clone of the project into its directory under `root` needs.
    /// It fails exactly where the `url` crate accepts no address for the
    /// project.
    pub fn clone_request(&self, root: &str) -> (request: Result<CloneRequest, UrlRejected>)
        ensures
            match request {
                Ok(request) => self@.address() == Some(request.url@) && request.path@
                    == self@.path_under(root@),
                Err(_) => self@.address() is None,
            },
    {
        match self.to_url() {
            Ok(url) => Ok(CloneRequest { url, path: self.to_path(root) }),
            Err(rejected) => Err(rejected),
        }
    }
}

/// What has a directory of its own under a root.
pub trait ToPath {
    /// The directory under `root`.
    spec fn path_under(&self, root: Seq<char>) -> Seq<char>;

    /// The directory under `root`, as text.
    fn to_path(&self, root: &str) -> (path: String)
        ensures
            path@ == self.path_under(root@),
    ;
}

impl ToPath for Project {
    open spec fn path_under(&self, root: Seq<char>) -> Seq<char> {
        self@.path_under(root)
    }

    fn to_path(&self, root: &str) -> (path: String) {
        let key = self.path_key();
        let root_chars = chars_of(root);
        if root_chars.len() == 0 || root_chars[root_chars.len() - 1] == '/' {
            join2(root, key.as_str())
        } else {
            join3(root, "/", key.as_str())
        }
    }
}

impl ToUrl for Project {
    open spec fn address(&self) -> Option<Seq<char>> {
        self@.address()
    }

    /// The remote address: what the `url` crate makes of the rendered form,
    /// resolved against the address of the service.
    fn to_url(&self) -> (address: Result<String, UrlRejected>) {
        let base = join2("https://", self.source.host_str());
        let reference = self.to_string();
        accepted(join_url(base.as_str(), reference.as_str()))
    }
}

/// The naming step: the function that gives a project the display name
/// `name`, or takes its display name away where `name` is `None`, and leaves
/// the rest of the project as it is.
pub fn set_name(name: Option<String>) -> (rename: impl Fn(Project) -> Project)
    ensures
        forall|project: Project| call_requires(rename, (project,)),
        forall|project: Project, named: Project|
            call_ensures(rename, (project,), named) ==> named == (Project {
                name,
                ..project
            }),
{
    move |project: Project| -> (named: Project)
        ensures
            named == (Project { name, ..project }),
        {
            Project {
                name: match &name {
                    Some(name) => Some(name.clone()),
                    None => None,
                },
                ..project
            }
        }
}

/// Two projects of one service, user and repository; their display names
/// may differ.
pub open spec fn same_identity(p: ProjectView, q: ProjectView) -> bool {
    p.source == q.source && p.user == q.user && p.repo == q.repo
}

/// `q` is on the service of `p` and cuts the text `<user>--<repo>` of `p`
/// into user and repository at another `--` than `p` does.
pub open spec fn recut(p: ProjectView, q: ProjectView) -> bool {
    let text = p.user + "--"@ + p.repo;
    let at = q.user.len() as int;
    &&& p.source == q.source
    &&& at != p.user.len()
    &&& at + 2 <= text.len()
    &&& text.subrange(at, at + 2) == "--"@
    &&& q.user == text.subrange(0, at)
    &&& q.repo == text.subrange(at + 2, text.len() as int)
}

/// The character at `at` is no `-`, or it is one that another character
/// than `-` follows.
pub open spec fn lone_dash(user: Seq<char>, at: int) -> bool {
    user[at] == '-' ==> at + 1 < user.len() && user[at + 1] != '-'
}

/// A user name in which every `-` is followed by a character other than `-`:
/// it holds no `--` and does not end in `-`.
pub open spec fn plain_user(user: Seq<char>) -> bool {
    forall|at: int| 0 <= at < user.len() ==> #[trigger] lone_dash(user, at)
}

/// A shorthand identifier made of a token, `:`, a user that is not empty and
/// does not begin with `/`, `/`, and a repository that is not empty, is
/// accepted. Where the user holds no `/` at all, the project read from it has
/// exactly that service, user and repository, and no display name, and its
/// directory under a root is the root joined with token, user and repository
/// with `--` between them: the same text each time it is derived.
pub proof fn lemma_parse_accepts_shorthand(
    source: Source,
    user: Seq<char>,
    repo: Seq<char>,
    root: Seq<char>,
)
    requires
        user.len() > 0,
        repo.len() > 0,
        user[0] != '/',
    ensures
        parse(source.token() + ":"@ + user + "/"@ + repo) is Ok,
        !user.contains('/') ==> parse(source.token() + ":"@ + user + "/"@ + repo) == Ok::<
            ProjectView,
            ParseError,
        >(ProjectView { user, repo, name: None, source }),
        !user.contains('/') ==> parse(
            source.token() + ":"@ + user + "/"@ + repo,
        )->Ok_0.path_under(root) == join_path(
            root,
            source.token() + "--"@ + user + "--"@ + repo,
        ),
{
    let token = source.token();
    let rest = user + "/"@ + repo;
    let text = token + ":"@ + user + "/"@ + repo;
    reveal_strlit(":");
    reveal_strlit("/");
    crate::source::lemma_token_shape(source);
    crate::source::lemma_token_round_trip(source);
    assert(text =~= token + ":"@ + rest);
    assert(text[0] == token[0] && text[1] == token[1]);
    assert(text[2] == ':');
    text.index_of_first_ensures(':');
    assert(text.contains(':'));
    let colon = text.index_of_first(':').unwrap();
    assert(colon == 2) by {
        if colon < 2 {
            assert(text[colon] == token[colon]);
        }
    }
    assert(text.subrange(0, 2) =~= token);
    assert(text.subrange(3, text.len() as int) =~= rest);
    assert(rest[user.len() as int] == '/');
    rest.index_of_first_ensures('/');
    assert(rest.contains('/'));
    let slash = rest.index_of_first('/').unwrap();
    assert(slash <= user.len());
    assert(slash > 0) by {
        assert(rest[0] == user[0]);
    }
    if !user.contains('/') {
        assert(slash == user.len()) by {
            if slash < user.len() {
                assert(user[slash] == rest[slash]);
            }
        }
        assert(rest.subrange(0, slash) =~= user);
        assert(rest.subrange(slash + 1, rest.len() as int) =~= repo);
    }
}

/// The path key, the directory and the remote address of a project follow
/// from its service, user and repository alone: the display name takes no
/// part, and equal inputs give the same text every time.
pub proof fn lemma_derivations_ignore_name(p: ProjectView, q: ProjectView, root: Seq<char>)
    requires
        same_identity(p, q),
    ensures
        p.path_key() == q.path_key(),
        p.path_under(root) == q.path_under(root),
        p.rendered() == q.rendered(),
        p.address() == q.address(),
{
}

/// Two projects have the same path key exactly when they are the same
/// service, user and repository, or when one cuts the text `<user>--<repo>`
/// of the other at another `--`.
pub proof fn lemma_path_key_collisions(p: ProjectView, q: ProjectView)
    ensures
        p.path_key() == q.path_key() <==> same_identity(p, q) || recut(p, q),
{
    reveal_strlit("--");
    let dashes = "--"@;
    let p_text = p.user + dashes + p.repo;
    let q_text = q.user + dashes + q.repo;
    crate::source::lemma_token_shape(p.source);
    crate::source::lemma_token_shape(q.source);
    crate::source::lemma_token_round_trip(p.source);
    crate::source::lemma_token_round_trip(q.source);
    assert(p.path_key() =~= p.source.token() + dashes + p_text);
    assert(q.path_key() =~= q.source.token() + dashes + q_text);
    if p.path_key() == q.path_key() {
        assert(p.path_key().subrange(0, 2) =~= p.source.token());
        assert(q.path_key().subrange(0, 2) =~= q.source.token());
        assert(p.path_key().subrange(4, p.path_key().len() as int) =~= p_text);
        assert(q.path_key().subrange(4, q.path_key().len() as int) =~= q_text);
        assert(p.source == q.source);
        assert(p_text == q_text);
        let at = q.user.len() as int;
        assert(q_text.subrange(0, at) =~= q.user);
        assert(q_text.subrange(at, at + 2) =~= dashes);
        assert(q_text.subrange(at + 2, q_text.len() as int) =~= q.repo);
        if at == p.user.len() {
            assert(p_text.subrange(0, at) =~= p.user);
            assert(p_text.subrange(at + 2, p_text.len() as int) =~= p.repo);
        }
    }
    if recut(p, q) {
        let at = q.user.len() as int;
        assert(q_text =~= p_text.subrange(0, at) + p_text.subrange(at, at + 2) + p_text.subrange(
            at + 2,
            p_text.len() as int,
        ));
        assert(q_text =~= p_text);
    }
}

/// Projects that differ in service, user or repository have different path
/// keys, unless one is a recut of the other. (`a--b` with `c`, and `a` with
/// `b--c`, on one service: both have the key `<token>--a--b--c`.)
pub proof fn lemma_distinct_projects_distinct_keys(p: ProjectView, q: ProjectView)
    requires
        !same_identity(p, q),
        !recut(p, q),
    ensures
        p.path_key() != q.path_key(),
{
    lemma_path_key_collisions(p, q);
}

/// Among projects whose users are plain, no recut exists: projects that
/// differ in service, user or repository have different path keys.
pub proof fn lemma_plain_users_distinct_keys(p: ProjectView, q: ProjectView)
    requires
        !same_identity(p, q),
        plain_user(p.user),
        plain_user(q.user),
    ensures
        !recut(p, q),
        p.path_key() != q.path_key(),
{
    reveal_strlit("--");
    let text = p.user + "--"@ + p.repo;
    let at = q.user.len() as int;
    if recut(p, q) {
        assert(text.subrange(at, at + 2)[0] == '-');
        assert(text.subrange(at, at + 2)[1] == '-');
        if at < p.user.len() {
            assert(p.user[at] == text[at]);
            if at + 1 < p.user.len() {
                assert(p.user[at + 1] == text[at + 1]);
            }
            assert(lone_dash(p.user, at));
        } else {
            let cut = p.user.len() as int;
            assert(text[cut] == '-' && text[cut + 1] == '-');
            assert(q.user[cut] == text.subrange(0, at)[cut]);
            if cut + 1 < at {
                assert(q.user[cut + 1] == text.subrange(0, at)[cut + 1]);
            }
            assert(lone_dash(q.user, cut));
        }
    }
    lemma_path_key_collisions(p, q);
}

/// Under one root, projects with different path keys have different
/// directories.
pub proof fn lemma_distinct_keys_distinct_paths(p: ProjectView, q: ProjectView, root: Seq<char>)
    requires
        p.path_key() != q.path_key(),
    ensures
        p.path_under(root) != q.path_under(root),
{
    let prefix = if root.len() == 0 || root.last() == '/' {
        root
    } else {
        root + "/"@
    };
    let n = prefix.len() as int;
    assert(p.path_under(root) =~= prefix + p.path_key());
    assert(q.path_under(root) =~= prefix + q.path_key());
    assert((prefix + p.path_key()).subrange(n, n + p.path_key().len()) =~= p.path_key());
    assert((prefix + q.path_key()).subrange(n, n + q.path_key().len()) =~= q.path_key());
}

} // verus!
