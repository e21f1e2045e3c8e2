//! The repository's identity as Git holds it, and the reader of `origin` URLs.
//!
//! Running `git` itself happens outside this library: the functions here take
//! what `git` printed and decide what it means.
use vstd::prelude::*;
use crate::text::{
    chars_of, find_char, find_from, has_prefix, has_suffix, lemma_find_from_at, lemma_find_from_bounds,
    lemma_rfind_before_at_least, lemma_rfind_before_bounds, matches_at, rfind_before, rfind_char,
    slice_chars, substring,
};

verus! {

/// An error reported by `git`, or an origin URL that could not be read.
#[derive(Debug)]
pub struct GitError(pub String);

/// What `git config` and `git remote` report for the current repository.
#[derive(Debug)]
pub struct GitConfig {
    pub user_name: String,
    pub user_email: String,
    pub remote_url: String,
}

/// The identity applied to the current repository so far.
pub struct Git {
    config: GitConfig,
}

pub open spec fn ssh_prefix() -> Seq<char> {
    seq!['g', 'i', 't', '@']
}

pub open spec fn https_prefix() -> Seq<char> {
    seq!['h', 't', 't', 'p', 's', ':', '/', '/']
}

pub open spec fn git_suffix() -> Seq<char> {
    seq!['.', 'g', 'i', 't']
}

/// `s` without one trailing `.git`.
pub open spec fn strip_git(s: Seq<char>) -> Seq<char> {
    if has_suffix(s, git_suffix()) {
        s.subrange(0, s.len() - 4)
    } else {
        s
    }
}

/// `git@host:owner/repo[.git]`: the URL holds exactly one `:`; after it,
/// without the `.git`, come the owner and the repository as the first two
/// `/`-separated segments.
pub open spec fn ssh_origin_parts(u: Seq<char>) -> Option<(Seq<char>, Seq<char>)> {
    let c = find_from(u, ':', 0);
    if c < u.len() && find_from(u, ':', c + 1) == u.len() {
        let path = strip_git(u.subrange(c + 1, u.len() as int));
        let s1 = find_from(path, '/', 0);
        if s1 < path.len() {
            let s2 = find_from(path, '/', s1 + 1);
            Some((path.subrange(0, s1), path.subrange(s1 + 1, s2)))
        } else {
            None
        }
    } else {
        None
    }
}

/// `https://host/.../owner/repo[.git]`: the last two `/`-separated segments.
pub open spec fn https_origin_parts(u: Seq<char>) -> (Seq<char>, Seq<char>) {
    let last = rfind_before(u, '/', u.len() as int);
    let prev = rfind_before(u, '/', last);
    (u.subrange(prev + 1, last), strip_git(u.subrange(last + 1, u.len() as int)))
}

/// Owner and repository named by an origin URL, when it has a form that is read.
pub open spec fn origin_parts(u: Seq<char>) -> Option<(Seq<char>, Seq<char>)> {
    if has_prefix(u, ssh_prefix()) {
        ssh_origin_parts(u)
    } else if has_prefix(u, https_prefix()) {
        Some(https_origin_parts(u))
    } else {
        None
    }
}

/// The SSH remote URL for a repository reached through an SSH host alias.
pub open spec fn remote_url_of(host: Seq<char>, user: Seq<char>, repo: Seq<char>) -> Seq<char> {
    ssh_prefix() + host + seq![':'] + user + seq!['/'] + repo + git_suffix()
}

/// Where `v[from..to]` ends once one trailing `.git` is dropped.
fn strip_git_len(v: &Vec<char>, from: usize, to: usize) -> (r: usize)
    requires
        from <= to <= v@.len(),
    ensures
        from <= r <= to,
        v@.subrange(from as int, r as int) == strip_git(v@.subrange(from as int, to as int)),
{
    let ghost s = v@.subrange(from as int, to as int);
    if to - from >= 4 && matches_at(v, to - 4, &['.', 'g', 'i', 't']) {
        assert(s.subrange(s.len() - 4, s.len() as int) =~= v@.subrange(to - 4, to as int));
        assert(v@.subrange(from as int, to - 4) =~= s.subrange(0, s.len() - 4));
        to - 4
    } else {
        proof {
            if has_suffix(s, git_suffix()) {
                assert(s.subrange(s.len() - 4, s.len() as int) =~= v@.subrange(to - 4, to as int));
                assert(['.', 'g', 'i', 't']@ =~= git_suffix());
            }
        }
        to
    }
}

impl Git {
    /// The identity this handle has applied; empty at first.
    pub closed spec fn current(&self) -> GitConfig {
        self.config
    }

    pub fn new() -> (r: Self)
        ensures
            r.current().user_name@ == Seq::<char>::empty(),
            r.current().user_email@ == Seq::<char>::empty(),
            r.current().remote_url@ == Seq::<char>::empty(),
    {
        Git {
            config: GitConfig {
                user_name: String::new(),
                user_email: String::new(),
                remote_url: String::new(),
            },
        }
    }

    /// Records the name and email that `git config user.name` and
    /// `git config user.email` have been set to.
    pub fn set_config(&mut self, name: &str, email: &str)
        ensures
            final(self).current().user_name@ == name@,
            final(self).current().user_email@ == email@,
            final(self).current().remote_url@ == old(self).current().remote_url@,
    {
        self.config.user_name = name.to_owned();
        self.config.user_email = email.to_owned();
    }

    /// The remote URL `git@host:user/repo.git` to give `origin`; it is
    /// recorded as the current remote.
    pub fn set_remote(&mut self, host: &str, user: &str, repo: &str) -> (r: String)
        ensures
            r@ == remote_url_of(host@, user@, repo@),
            final(self).current().remote_url@ == r@,
            final(self).current().user_name@ == old(self).current().user_name@,
            final(self).current().user_email@ == old(self).current().user_email@,
    {
        let mut url = String::from_str("git@");
        url.append(host);
        url.append(":");
        url.append(user);
        url.append("/");
        url.append(repo);
        url.append(".git");
        proof {
            reveal_strlit("git@");
            reveal_strlit(":");
            reveal_strlit("/");
            reveal_strlit(".git");
            assert(url@ =~= remote_url_of(host@, user@, repo@));
        }
        self.config.remote_url = url.clone();
        url
    }

    /// The repository's configuration from what `git config user.name`,
    /// `git config user.email` and `git remote get-url origin` returned.
    /// A failure of either of the first two is the result; a missing
    /// origin leaves the remote empty.
    pub fn get_current_config(
        &self,
        user_name: Result<String, GitError>,
        user_email: Result<String, GitError>,
        remote_url: Result<String, GitError>,
    ) -> (r: Result<GitConfig, GitError>)
        ensures
            user_name is Err ==> r is Err && r->Err_0 == user_name->Err_0,
            user_name is Ok && user_email is Err ==> r is Err && r->Err_0 == user_email->Err_0,
            user_name is Ok && user_email is Ok ==> r is Ok
                && r->Ok_0.user_name == user_name->Ok_0
                && r->Ok_0.user_email == user_email->Ok_0
                && r->Ok_0.remote_url@ == match remote_url {
                    Ok(u) => u@,
                    Err(_) => Seq::<char>::empty(),
                },
    {
        let user_name = match user_name {
            Ok(n) => n,
            Err(e) => return Err(e),
        };
        let user_email = match user_email {
            Ok(m) => m,
            Err(e) => return Err(e),
        };
        let remote_url = match remote_url {
            Ok(u) => u,
            Err(_) => String::new(),
        };
        Ok(GitConfig { user_name, user_email, remote_url })
    }

    /// Owner and repository of the origin URL `url`.
    pub fn parse_origin_url(&self, url: &str) -> (r: Result<(String, String), GitError>)
        ensures
            r is Ok <==> origin_parts(url@) is Some,
            r is Ok ==> (r->Ok_0.0@, r->Ok_0.1@) == origin_parts(url@)->Some_0,
    {
        parse_origin(url)
    }
}

/// Owner and repository of the origin URL `url`.
fn parse_origin(url: &str) -> (r: Result<(String, String), GitError>)
    ensures
        r is Ok <==> origin_parts(url@) is Some,
        r is Ok ==> (r->Ok_0.0@, r->Ok_0.1@) == origin_parts(url@)->Some_0,
{
    let v = chars_of(url);
    let n = v.len();
    if n == 0 {
        return Err(GitError(String::from_str("Remote 'origin' URL is empty")));
    }
    if matches_at(&v, 0, &['g', 'i', 't', '@']) {
        proof {
            assert(['g', 'i', 't', '@']@ =~= ssh_prefix());
        }
        let c = find_char(&v, ':', 0);
        if c < n && find_char(&v, ':', c + 1) == n {
            let end = strip_git_len(&v, c + 1, n);
            let ghost path = strip_git(v@.subrange(c + 1, n as int));
            let path_v = slice_chars(&v, c + 1, end);
            assert(path_v@ == path);
            let s1 = find_char(&path_v, '/', 0);
            if s1 < path_v.len() {
                proof {
                    lemma_find_from_bounds(path, '/', 0);
                }
                let s2 = find_char(&path_v, '/', s1 + 1);
                proof {
                    lemma_find_from_bounds(path, '/', s1 + 1);
                    assert(path.subrange(0, s1 as int) =~= url@.subrange(c + 1, c + 1 + s1));
                    assert(path.subrange(s1 + 1, s2 as int) =~= url@.subrange(
                        c + 1 + s1 + 1,
                        c + 1 + s2,
                    ));
                }
                let owner = substring(url, c + 1, c + 1 + s1);
                let repo = substring(url, c + 1 + s1 + 1, c + 1 + s2);
                return Ok((owner, repo));
            }
        }
        return Err(GitError(String::from_str("Invalid remote repository URL format")));
    }
    if matches_at(&v, 0, &['h', 't', 't', 'p', 's', ':', '/', '/']) {
        proof {
            assert(['h', 't', 't', 'p', 's', ':', '/', '/']@ =~= https_prefix());
            assert(v@[7] == '/');
            assert(v@[6] == '/');
            lemma_rfind_before_at_least(v@, '/', n as int, 7);
            lemma_rfind_before_bounds(v@, '/', n as int);
        }
        let last = match rfind_char(&v, '/', n) {
            Some(j) => j,
            None => return Err(GitError(String::from_str("Unsupported remote repository URL format"))),
        };
        proof {
            if last > 7 {
                lemma_rfind_before_at_least(v@, '/', last as int, 7);
            } else {
                lemma_rfind_before_at_least(v@, '/', last as int, 6);
            }
            lemma_rfind_before_bounds(v@, '/', last as int);
        }
        let prev = match rfind_char(&v, '/', last) {
            Some(j) => j,
            None => return Err(GitError(String::from_str("Unsupported remote repository URL format"))),
        };
        let end = strip_git_len(&v, last + 1, n);
        let owner = substring(url, prev + 1, last);
        let repo = substring(url, last + 1, end);
        return Ok((owner, repo));
    }
    Err(GitError(String::from_str("Unsupported remote repository URL format")))
}

/// The remote URL that a switch writes reads back as the owner and
/// repository it was made from, when the host holds no `:` and the owner
/// and repository hold neither `:` nor `/`.
pub proof fn lemma_remote_url_round_trip(host: Seq<char>, user: Seq<char>, repo: Seq<char>)
    requires
        forall|i: int| 0 <= i < host.len() ==> #[trigger] host[i] != ':',
        forall|i: int| 0 <= i < user.len() ==> #[trigger] user[i] != ':' && user[i] != '/',
        forall|i: int| 0 <= i < repo.len() ==> #[trigger] repo[i] != ':' && repo[i] != '/',
    ensures
        origin_parts(remote_url_of(host, user, repo)) == Some((user, repo)),
{
    let u = remote_url_of(host, user, repo);
    let h = host.len() as int;
    let n = user.len() as int;
    let m = repo.len() as int;
    let c = 4 + h;
    assert(u.subrange(0, 4) =~= ssh_prefix());
    assert forall|k: int| 0 <= k < c implies #[trigger] u[k] != ':' by {
        if k >= 4 {
            assert(u[k] == host[k - 4]);
        }
    }
    assert(u[c] == ':');
    lemma_find_from_at(u, ':', 0, c);
    assert(u.len() == c + 1 + n + 1 + m + 4);
    assert forall|k: int| c + 1 <= k < u.len() implies #[trigger] u[k] != ':' by {
        if k < c + 1 + n {
            assert(u[k] == user[k - c - 1]);
        } else if k == c + 1 + n {
            assert(u[k] == '/');
        } else if k < c + 2 + n + m {
            assert(u[k] == repo[k - c - 2 - n]);
        }
    }
    lemma_find_from_at(u, ':', c + 1, u.len() as int);
    let rest = u.subrange(c + 1, u.len() as int);
    let path = user + seq!['/'] + repo;
    assert(rest =~= path + git_suffix());
    assert(rest.subrange(rest.len() - 4, rest.len() as int) =~= git_suffix());
    assert(strip_git(rest) =~= path);
    assert forall|k: int| 0 <= k < n implies #[trigger] path[k] != '/' by {
        assert(path[k] == user[k]);
    }
    lemma_find_from_at(path, '/', 0, n);
    assert forall|k: int| n + 1 <= k < path.len() implies #[trigger] path[k] != '/' by {
        assert(path[k] == repo[k - n - 1]);
    }
    lemma_find_from_at(path, '/', n + 1, path.len() as int);
    assert(path.subrange(0, n) =~= user);
    assert(path.subrange(n + 1, path.len() as int) =~= repo);
}

} // verus!
