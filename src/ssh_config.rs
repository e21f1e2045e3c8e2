//! Reading host blocks out of an OpenSSH client config, and writing one.
//!
//! The reader is a two-state machine over the lines of the text: outside any
//! block, or inside one that is being filled. A `Host` line closes the open
//! block, if any, and opens a new one; the end of the text closes the last.
use vstd::prelude::*;
use crate::text::{chars_of, has_prefix, is_whitespace, is_ws, matches_at, slice_chars, substring};

verus! {

/// One `Host` block: its alias and the keyed values the reader knows.
/// A value that the block does not set is empty.
#[derive(Debug)]
pub struct SshHostEntry {
    pub alias: String,
    pub hostname: String,
    pub user: String,
    pub port: String,
    pub identity_file: String,
}

/// The fields of an [`SshHostEntry`] as character sequences.
pub struct HostModel {
    pub alias: Seq<char>,
    pub hostname: Seq<char>,
    pub user: Seq<char>,
    pub port: Seq<char>,
    pub identity_file: Seq<char>,
}

impl View for SshHostEntry {
    type V = HostModel;

    open spec fn view(&self) -> HostModel {
        HostModel {
            alias: self.alias@,
            hostname: self.hostname@,
            user: self.user@,
            port: self.port@,
            identity_file: self.identity_file@,
        }
    }
}

/// The reader's state between two lines: the closed blocks, and the open one.
pub struct ScanState {
    pub done: Seq<HostModel>,
    pub open: Option<HostModel>,
}

/// Least `j >= i` whose character is not whitespace, or the length.
pub open spec fn skip_ws(s: Seq<char>, i: int) -> int
    decreases s.len() - i,
{
    if i >= s.len() {
        s.len() as int
    } else if is_ws(s[i]) {
        skip_ws(s, i + 1)
    } else {
        i
    }
}

/// Least `j >= i` whose character is whitespace, or the length.
pub open spec fn skip_word(s: Seq<char>, i: int) -> int
    decreases s.len() - i,
{
    if i >= s.len() {
        s.len() as int
    } else if !is_ws(s[i]) {
        skip_word(s, i + 1)
    } else {
        i
    }
}

/// Least `j <= i` such that `s[j..i]` is all whitespace.
pub open spec fn trim_end(s: Seq<char>, i: int) -> int
    decreases i,
{
    if i <= 0 {
        0
    } else if is_ws(s[i - 1]) {
        trim_end(s, i - 1)
    } else {
        i
    }
}

/// `s` without leading and trailing whitespace.
pub open spec fn trim(s: Seq<char>) -> Seq<char> {
    let lo = skip_ws(s, 0);
    let hi = trim_end(s, s.len() as int);
    if hi <= lo {
        Seq::empty()
    } else {
        s.subrange(lo, hi)
    }
}

/// The second whitespace-separated word of `s`, or empty.
pub open spec fn second_word(s: Seq<char>) -> Seq<char> {
    let a = skip_ws(s, 0);
    let b = skip_word(s, a);
    let c = skip_ws(s, b);
    let d = skip_word(s, c);
    s.subrange(c, d)
}

/// The pieces of `s` between line feeds, in order; a text without any is
/// one piece.
pub open spec fn split_lines(s: Seq<char>) -> Seq<Seq<char>>
    decreases s.len(),
{
    if s.len() == 0 {
        seq![Seq::empty()]
    } else {
        let prev = split_lines(s.drop_last());
        if s.last() == '\n' {
            prev.push(Seq::empty())
        } else {
            prev.update(prev.len() - 1, prev.last().push(s.last()))
        }
    }
}

pub open spec fn kw_host() -> Seq<char> {
    seq!['H', 'o', 's', 't', ' ']
}

pub open spec fn kw_hostname() -> Seq<char> {
    seq!['H', 'o', 's', 't', 'N', 'a', 'm', 'e', ' ']
}

pub open spec fn kw_user() -> Seq<char> {
    seq!['U', 's', 'e', 'r', ' ']
}

pub open spec fn kw_port() -> Seq<char> {
    seq!['P', 'o', 'r', 't', ' ']
}

pub open spec fn kw_identity_file() -> Seq<char> {
    seq!['I', 'd', 'e', 'n', 't', 'i', 't', 'y', 'F', 'i', 'l', 'e', ' ']
}

pub open spec fn empty_host(alias: Seq<char>) -> HostModel {
    HostModel {
        alias,
        hostname: Seq::empty(),
        user: Seq::empty(),
        port: Seq::empty(),
        identity_file: Seq::empty(),
    }
}

/// What a trimmed line inside a block does to it.
pub open spec fn fill_host(e: HostModel, t: Seq<char>) -> HostModel {
    if has_prefix(t, kw_hostname()) {
        HostModel { hostname: second_word(t), ..e }
    } else if has_prefix(t, kw_user()) {
        HostModel { user: second_word(t), ..e }
    } else if has_prefix(t, kw_port()) {
        HostModel { port: second_word(t), ..e }
    } else if has_prefix(t, kw_identity_file()) {
        HostModel { identity_file: second_word(t), ..e }
    } else {
        e
    }
}

pub open spec fn closed_blocks(st: ScanState) -> Seq<HostModel> {
    match st.open {
        Some(e) => st.done.push(e),
        None => st.done,
    }
}

/// One step of the reader on one raw line.
pub open spec fn scan_line(st: ScanState, line: Seq<char>) -> ScanState {
    let t = trim(line);
    if has_prefix(t, kw_host()) {
        ScanState { done: closed_blocks(st), open: Some(empty_host(second_word(t))) }
    } else {
        match st.open {
            Some(e) => ScanState { done: st.done, open: Some(fill_host(e, t)) },
            None => st,
        }
    }
}

/// The reader's state after the given lines.
pub open spec fn scan_lines(lines: Seq<Seq<char>>) -> ScanState
    decreases lines.len(),
{
    if lines.len() == 0 {
        ScanState { done: Seq::empty(), open: None }
    } else {
        scan_line(scan_lines(lines.drop_last()), lines.last())
    }
}

/// The host blocks of an SSH client config text, in order.
pub open spec fn parse_hosts(text: Seq<char>) -> Seq<HostModel> {
    closed_blocks(scan_lines(split_lines(text)))
}

pub open spec fn entries_view(v: Seq<SshHostEntry>) -> Seq<HostModel> {
    v.map_values(|e: SshHostEntry| e@)
}

pub open spec fn open_view(o: Option<SshHostEntry>) -> Option<HostModel> {
    match o {
        Some(e) => Some(e@),
        None => None,
    }
}

proof fn lemma_split_lines_nonempty(s: Seq<char>)
    ensures
        split_lines(s).len() >= 1,
    decreases s.len(),
{
    if s.len() > 0 {
        lemma_split_lines_nonempty(s.drop_last());
    }
}

fn skip_ws_exec(s: &Vec<char>, i: usize) -> (r: usize)
    requires
        i <= s@.len(),
    ensures
        r as int == skip_ws(s@, i as int),
        i <= r <= s@.len(),
{
    let mut j = i;
    while j < s.len() && is_whitespace(s[j])
        invariant
            i <= j <= s@.len(),
            skip_ws(s@, i as int) == skip_ws(s@, j as int),
        decreases s@.len() - j,
    {
        j = j + 1;
    }
    j
}

fn skip_word_exec(s: &Vec<char>, i: usize) -> (r: usize)
    requires
        i <= s@.len(),
    ensures
        r as int == skip_word(s@, i as int),
        i <= r <= s@.len(),
{
    let mut j = i;
    while j < s.len() && !is_whitespace(s[j])
        invariant
            i <= j <= s@.len(),
            skip_word(s@, i as int) == skip_word(s@, j as int),
        decreases s@.len() - j,
    {
        j = j + 1;
    }
    j
}

fn trim_end_exec(s: &Vec<char>) -> (r: usize)
    ensures
        r as int == trim_end(s@, s@.len() as int),
        r <= s@.len(),
{
    let mut j = s.len();
    while j > 0 && is_whitespace(s[j - 1])
        invariant
            j <= s@.len(),
            trim_end(s@, s@.len() as int) == trim_end(s@, j as int),
        decreases j,
    {
        j = j - 1;
    }
    j
}

/// The second word of the trimmed line `t`, which stands in `text` at `base`.
fn second_word_exec(text: &str, t: &Vec<char>, base: usize) -> (r: String)
    requires
        text@.len() <= usize::MAX,
        base + t@.len() <= text@.len(),
        t@ == text@.subrange(base as int, base + t@.len()),
    ensures
        r@ == second_word(t@),
{
    let a = skip_ws_exec(t, 0);
    let b = skip_word_exec(t, a);
    let c = skip_ws_exec(t, b);
    let d = skip_word_exec(t, c);
    assert(t@.subrange(c as int, d as int) =~= text@.subrange(base + c, base + d));
    substring(text, base + c, base + d)
}

/// Applies one raw line, `text[start..end]`, to the reader's state.
fn scan_line_exec(
    text: &str,
    v: &Vec<char>,
    start: usize,
    end: usize,
    done: &mut Vec<SshHostEntry>,
    open: &mut Option<SshHostEntry>,
)
    requires
        v@ == text@,
        v@.len() <= usize::MAX,
        start <= end <= v@.len(),
    ensures
        (ScanState { done: entries_view(final(done)@), open: open_view(*final(open)) }) == scan_line(
            ScanState { done: entries_view(old(done)@), open: open_view(*old(open)) },
            v@.subrange(start as int, end as int),
        ),
{
    let ghost st = ScanState { done: entries_view(done@), open: open_view(*open) };
    let line = slice_chars(v, start, end);
    let lo = skip_ws_exec(&line, 0);
    let hi = trim_end_exec(&line);
    let t = if hi <= lo {
        Vec::new()
    } else {
        slice_chars(&line, lo, hi)
    };
    let base = if hi <= lo {
        start
    } else {
        start + lo
    };
    assert(t@ =~= trim(line@));
    assert(t@ =~= text@.subrange(base as int, base + t@.len()));
    if matches_at(&t, 0, &['H', 'o', 's', 't', ' ']) {
        assert(['H', 'o', 's', 't', ' ']@ =~= kw_host());
        let alias = second_word_exec(text, &t, base);
        let prev = open.take();
        match prev {
            Some(e) => {
                done.push(e);
                assert(entries_view(done@) =~= closed_blocks(st));
            },
            None => {
                assert(entries_view(done@) =~= closed_blocks(st));
            },
        }
        *open = Some(
            SshHostEntry {
                alias,
                hostname: String::new(),
                user: String::new(),
                port: String::new(),
                identity_file: String::new(),
            },
        );
    } else {
        proof {
            if has_prefix(t@, kw_host()) {
                assert(['H', 'o', 's', 't', ' ']@ =~= kw_host());
            }
        }
        match open {
            Some(e) => {
                let ghost e0 = e@;
                if matches_at(&t, 0, &['H', 'o', 's', 't', 'N', 'a', 'm', 'e', ' ']) {
                    assert(['H', 'o', 's', 't', 'N', 'a', 'm', 'e', ' ']@ =~= kw_hostname());
                    e.hostname = second_word_exec(text, &t, base);
                } else if matches_at(&t, 0, &['U', 's', 'e', 'r', ' ']) {
                    proof {
                        assert(['U', 's', 'e', 'r', ' ']@ =~= kw_user());
                        if has_prefix(t@, kw_hostname()) {
                            assert(['H', 'o', 's', 't', 'N', 'a', 'm', 'e', ' ']@ =~= kw_hostname());
                        }
                    }
                    e.user = second_word_exec(text, &t, base);
                } else if matches_at(&t, 0, &['P', 'o', 'r', 't', ' ']) {
                    proof {
                        assert(['P', 'o', 'r', 't', ' ']@ =~= kw_port());
                        if has_prefix(t@, kw_hostname()) {
                            assert(['H', 'o', 's', 't', 'N', 'a', 'm', 'e', ' ']@ =~= kw_hostname());
                        }
                        if has_prefix(t@, kw_user()) {
                            assert(['U', 's', 'e', 'r', ' ']@ =~= kw_user());
                        }
                    }
                    e.port = second_word_exec(text, &t, base);
                } else if matches_at(
                    &t,
                    0,
                    &['I', 'd', 'e', 'n', 't', 'i', 't', 'y', 'F', 'i', 'l', 'e', ' '],
                ) {
                    proof {
                        assert(['I', 'd', 'e', 'n', 't', 'i', 't', 'y', 'F', 'i', 'l', 'e', ' ']@
                            =~= kw_identity_file());
                        if has_prefix(t@, kw_hostname()) {
                            assert(['H', 'o', 's', 't', 'N', 'a', 'm', 'e', ' ']@ =~= kw_hostname());
                        }
                        if has_prefix(t@, kw_user()) {
                            assert(['U', 's', 'e', 'r', ' ']@ =~= kw_user());
                        }
                        if has_prefix(t@, kw_port()) {
                            assert(['P', 'o', 'r', 't', ' ']@ =~= kw_port());
                        }
                    }
                    e.identity_file = second_word_exec(text, &t, base);
                } else {
                    proof {
                        if has_prefix(t@, kw_hostname()) {
                            assert(['H', 'o', 's', 't', 'N', 'a', 'm', 'e', ' ']@ =~= kw_hostname());
                        }
                        if has_prefix(t@, kw_user()) {
                            assert(['U', 's', 'e', 'r', ' ']@ =~= kw_user());
                        }
                        if has_prefix(t@, kw_port()) {
                            assert(['P', 'o', 'r', 't', ' ']@ =~= kw_port());
                        }
                        if has_prefix(t@, kw_identity_file()) {
                            assert(['I', 'd', 'e', 'n', 't', 'i', 't', 'y', 'F', 'i', 'l', 'e', ' ']@
                                =~= kw_identity_file());
                        }
                    }
                }
                assert(e@ == fill_host(e0, t@));
            },
            None => {},
        }
    }
}

/// The host blocks of `text`, an SSH client config, in order. Only the
/// first alias of a `Host` line is kept; lines the reader does not know are
/// passed over; an empty text has no blocks.
pub fn parse_ssh_config(text: &str) -> (r: Vec<SshHostEntry>)
    ensures
        entries_view(r@) == parse_hosts(text@),
{
    let v = chars_of(text);
    let n = v.len();
    let mut done: Vec<SshHostEntry> = Vec::new();
    let mut open: Option<SshHostEntry> = None;
    let mut start: usize = 0;
    let mut i: usize = 0;
    proof {
        assert(entries_view(done@) =~= Seq::<HostModel>::empty());
        assert(v@.subrange(0, 0) =~= Seq::<char>::empty());
        assert(split_lines(v@.subrange(0, 0)).drop_last() =~= Seq::<Seq<char>>::empty());
    }
    while i < n
        invariant
            v@ == text@,
            n == v@.len(),
            start <= i <= n,
            split_lines(v@.subrange(0, i as int)).last() == v@.subrange(start as int, i as int),
            scan_lines(split_lines(v@.subrange(0, i as int)).drop_last()) == (ScanState {
                done: entries_view(done@),
                open: open_view(open),
            }),
        decreases n - i,
    {
        let ghost pre = v@.subrange(0, i as int);
        let ghost next = v@.subrange(0, i + 1);
        proof {
            assert(next.drop_last() =~= pre);
            lemma_split_lines_nonempty(pre);
        }
        if v[i] == '\n' {
            scan_line_exec(text, &v, start, i, &mut done, &mut open);
            proof {
                assert(split_lines(next) == split_lines(pre).push(Seq::empty()));
                assert(split_lines(next).drop_last() =~= split_lines(pre));
                assert(split_lines(pre).drop_last().push(split_lines(pre).last()) =~= split_lines(
                    pre,
                ));
                assert(v@.subrange(i + 1, i + 1) =~= Seq::<char>::empty());
            }
            start = i + 1;
        } else {
            proof {
                let prev = split_lines(pre);
                assert(split_lines(next) == prev.update(
                    prev.len() - 1,
                    prev.last().push(v@[i as int]),
                ));
                assert(split_lines(next).drop_last() =~= prev.drop_last());
                assert(split_lines(next).last() =~= v@.subrange(start as int, i + 1));
            }
        }
        i = i + 1;
    }
    proof {
        assert(v@.subrange(0, n as int) =~= v@);
        lemma_split_lines_nonempty(v@);
        assert(split_lines(v@).drop_last().push(split_lines(v@).last()) =~= split_lines(v@));
    }
    scan_line_exec(text, &v, start, n, &mut done, &mut open);
    let ghost st = ScanState { done: entries_view(done@), open: open_view(open) };
    match open {
        Some(e) => {
            done.push(e);
            assert(entries_view(done@) =~= closed_blocks(st));
        },
        None => {},
    }
    done
}

pub open spec fn indent() -> Seq<char> {
    seq![' ', ' ', ' ', ' ']
}

/// The text that adding a host appends to the config: a blank line, the
/// `Host` line, then each known key on its own indented line.
pub open spec fn render_host(e: HostModel) -> Seq<char> {
    seq!['\n'] + (kw_host() + e.alias) + seq!['\n'] + (indent() + kw_hostname() + e.hostname)
        + seq!['\n'] + (indent() + kw_user() + e.user) + seq!['\n'] + (indent() + kw_port()
        + e.port) + seq!['\n'] + (indent() + kw_identity_file() + e.identity_file) + seq!['\n']
}

/// No character of `s` is whitespace.
pub open spec fn ws_free(s: Seq<char>) -> bool {
    forall|i: int| 0 <= i < s.len() ==> !is_ws(#[trigger] s[i])
}

/// A single word: not empty, without whitespace.
pub open spec fn is_token(s: Seq<char>) -> bool {
    s.len() > 0 && ws_free(s)
}

/// The alias of `e` is a single word, and each other field is a single
/// word or empty: the shape of every entry the reader returns.
pub open spec fn writable_host(e: HostModel) -> bool {
    is_token(e.alias) && ws_free(e.hostname) && ws_free(e.user) && ws_free(e.port) && ws_free(
        e.identity_file,
    )
}

/// The text for `e` that is appended to an SSH client config.
pub fn host_block(e: &SshHostEntry) -> (r: String)
    ensures
        r@ == render_host(e@),
{
    let mut r = String::from_str("\nHost ");
    r.append(e.alias.as_str());
    r.append("\n    HostName ");
    r.append(e.hostname.as_str());
    r.append("\n    User ");
    r.append(e.user.as_str());
    r.append("\n    Port ");
    r.append(e.port.as_str());
    r.append("\n    IdentityFile ");
    r.append(e.identity_file.as_str());
    r.append("\n");
    proof {
        reveal_strlit("\nHost ");
        reveal_strlit("\n    HostName ");
        reveal_strlit("\n    User ");
        reveal_strlit("\n    Port ");
        reveal_strlit("\n    IdentityFile ");
        reveal_strlit("\n");
        assert(r@ =~= render_host(e@));
    }
    r
}

proof fn lemma_split_lines_push_line(s: Seq<char>, x: Seq<char>)
    requires
        forall|i: int| 0 <= i < x.len() ==> #[trigger] x[i] != '\n',
    ensures
        split_lines(s + seq!['\n'] + x) == split_lines(s).push(x),
    decreases x.len(),
{
    let t = s + seq!['\n'] + x;
    if x.len() == 0 {
        assert(t.drop_last() =~= s);
        assert(split_lines(t) == split_lines(s).push(Seq::empty()));
        assert(x =~= Seq::<char>::empty());
    } else {
        let y = x.drop_last();
        assert(t.drop_last() =~= s + seq!['\n'] + y);
        lemma_split_lines_push_line(s, y);
        let prev = split_lines(s).push(y);
        assert(split_lines(t) == prev.update(prev.len() - 1, prev.last().push(x.last())));
        assert(y.push(x.last()) =~= x);
        assert(split_lines(t) =~= split_lines(s).push(x));
    }
}

proof fn lemma_skip_ws_run(s: Seq<char>, i: int, j: int)
    requires
        0 <= i <= j <= s.len(),
        forall|k: int| i <= k < j ==> is_ws(#[trigger] s[k]),
        j < s.len() ==> !is_ws(s[j]),
    ensures
        skip_ws(s, i) == j,
    decreases j - i,
{
    if i < j {
        lemma_skip_ws_run(s, i + 1, j);
    }
}

proof fn lemma_skip_word_run(s: Seq<char>, i: int, j: int)
    requires
        0 <= i <= j <= s.len(),
        forall|k: int| i <= k < j ==> !is_ws(#[trigger] s[k]),
        j < s.len() ==> is_ws(s[j]),
    ensures
        skip_word(s, i) == j,
    decreases j - i,
{
    if i < j {
        lemma_skip_word_run(s, i + 1, j);
    }
}

/// A keyword such as `User ` followed by one word: trimming keeps the line,
/// and the second word is the value.
proof fn lemma_keyword_line(kw: Seq<char>, v: Seq<char>)
    requires
        kw.len() >= 2,
        kw.last() == ' ',
        forall|i: int| 0 <= i < kw.len() - 1 ==> !is_ws(#[trigger] kw[i]),
        is_token(v),
    ensures
        trim(kw + v) == kw + v,
        second_word(kw + v) == v,
        trim(indent() + kw + v) == kw + v,
{
    let t = kw + v;
    let k = kw.len() as int;
    assert(!is_ws(t[0]));
    lemma_skip_ws_run(t, 0, 0);
    assert(!is_ws(t[t.len() - 1]));
    assert(trim_end(t, t.len() as int) == t.len());
    assert(t.subrange(0, t.len() as int) =~= t);
    assert(forall|i: int| 0 <= i < k - 1 ==> t[i] == kw[i]);
    lemma_skip_word_run(t, 0, k - 1);
    assert(t[k] == v[0]);
    lemma_skip_ws_run(t, k - 1, k);
    assert(forall|i: int| k <= i < t.len() ==> t[i] == v[i - k]);
    lemma_skip_word_run(t, k, t.len() as int);
    assert(t.subrange(k, t.len() as int) =~= v);
    let u = indent() + kw + v;
    assert(u[4] == kw[0]);
    lemma_skip_ws_run(u, 0, 4);
    assert(u[u.len() - 1] == v.last());
    assert(trim_end(u, u.len() as int) == u.len());
    assert(u.subrange(4, u.len() as int) =~= t);
}

/// A keyword line without a value trims to the bare keyword.
proof fn lemma_keyword_line_empty(kw: Seq<char>)
    requires
        kw.len() >= 2,
        kw.last() == ' ',
        forall|i: int| 0 <= i < kw.len() - 1 ==> !is_ws(#[trigger] kw[i]),
    ensures
        trim(indent() + kw + Seq::<char>::empty()) == kw.drop_last(),
{
    let u = indent() + kw + Seq::<char>::empty();
    assert(u[4] == kw[0]);
    lemma_skip_ws_run(u, 0, 4);
    assert(is_ws(u[u.len() - 1]));
    assert(u[u.len() - 2] == kw[kw.len() - 2]);
    assert(trim_end(u, u.len() - 1) == u.len() - 1);
    assert(u.subrange(4, u.len() - 1) =~= kw.drop_last());
}

proof fn lemma_not_prefix_at(s: Seq<char>, p: Seq<char>, i: int)
    requires
        0 <= i < p.len(),
        p.len() > s.len() || s[i] != p[i],
    ensures
        !has_prefix(s, p),
{
    if p.len() <= s.len() {
        assert(s.subrange(0, p.len() as int)[i] == s[i]);
    }
}

/// The state after a block's lines once its `Host` line has opened it.
proof fn lemma_scan_block(st: ScanState, e: HostModel)
    requires
        writable_host(e),
    ensures
        ({
            let l1 = kw_host() + e.alias;
            let l2 = indent() + kw_hostname() + e.hostname;
            let l3 = indent() + kw_user() + e.user;
            let l4 = indent() + kw_port() + e.port;
            let l5 = indent() + kw_identity_file() + e.identity_file;
            scan_line(
                scan_line(scan_line(scan_line(scan_line(scan_line(st, l1), l2), l3), l4), l5),
                Seq::empty(),
            ) == ScanState { done: closed_blocks(st), open: Some(e) }
        }),
{
    let l1 = kw_host() + e.alias;
    let l2 = indent() + kw_hostname() + e.hostname;
    let l3 = indent() + kw_user() + e.user;
    let l4 = indent() + kw_port() + e.port;
    let l5 = indent() + kw_identity_file() + e.identity_file;
    lemma_keyword_line(kw_host(), e.alias);
    assert(l1.subrange(0, 5) =~= kw_host());
    let s1 = scan_line(st, l1);
    let e1 = empty_host(e.alias);
    assert(s1 == ScanState { done: closed_blocks(st), open: Some(e1) });
    // HostName
    let e2 = HostModel { hostname: e.hostname, ..e1 };
    let s2 = scan_line(s1, l2);
    if e.hostname.len() > 0 {
        lemma_keyword_line(kw_hostname(), e.hostname);
        let t = kw_hostname() + e.hostname;
        lemma_not_prefix_at(t, kw_host(), 4);
        assert(t.subrange(0, 9) =~= kw_hostname());
    } else {
        lemma_keyword_line_empty(kw_hostname());
        let t = kw_hostname().drop_last();
        lemma_not_prefix_at(t, kw_host(), 4);
        lemma_not_prefix_at(t, kw_hostname(), 0);
        lemma_not_prefix_at(t, kw_user(), 0);
        lemma_not_prefix_at(t, kw_port(), 0);
        lemma_not_prefix_at(t, kw_identity_file(), 0);
        assert(e.hostname =~= Seq::<char>::empty());
    }
    assert(s2 == ScanState { done: closed_blocks(st), open: Some(e2) });
    // User
    let e3 = HostModel { user: e.user, ..e2 };
    let s3 = scan_line(s2, l3);
    if e.user.len() > 0 {
        lemma_keyword_line(kw_user(), e.user);
        let t = kw_user() + e.user;
        lemma_not_prefix_at(t, kw_host(), 0);
        lemma_not_prefix_at(t, kw_hostname(), 0);
        assert(t.subrange(0, 5) =~= kw_user());
    } else {
        lemma_keyword_line_empty(kw_user());
        let t = kw_user().drop_last();
        lemma_not_prefix_at(t, kw_host(), 0);
        lemma_not_prefix_at(t, kw_hostname(), 0);
        lemma_not_prefix_at(t, kw_user(), 0);
        lemma_not_prefix_at(t, kw_port(), 0);
        lemma_not_prefix_at(t, kw_identity_file(), 0);
        assert(e.user =~= Seq::<char>::empty());
    }
    assert(s3 == ScanState { done: closed_blocks(st), open: Some(e3) });
    // Port
    let e4 = HostModel { port: e.port, ..e3 };
    let s4 = scan_line(s3, l4);
    if e.port.len() > 0 {
        lemma_keyword_line(kw_port(), e.port);
        let t = kw_port() + e.port;
        lemma_not_prefix_at(t, kw_host(), 0);
        lemma_not_prefix_at(t, kw_hostname(), 0);
        lemma_not_prefix_at(t, kw_user(), 0);
        assert(t.subrange(0, 5) =~= kw_port());
    } else {
        lemma_keyword_line_empty(kw_port());
        let t = kw_port().drop_last();
        lemma_not_prefix_at(t, kw_host(), 0);
        lemma_not_prefix_at(t, kw_hostname(), 0);
        lemma_not_prefix_at(t, kw_user(), 0);
        lemma_not_prefix_at(t, kw_port(), 0);
        lemma_not_prefix_at(t, kw_identity_file(), 0);
        assert(e.port =~= Seq::<char>::empty());
    }
    assert(s4 == ScanState { done: closed_blocks(st), open: Some(e4) });
    // IdentityFile
    let s5 = scan_line(s4, l5);
    if e.identity_file.len() > 0 {
        lemma_keyword_line(kw_identity_file(), e.identity_file);
        let t = kw_identity_file() + e.identity_file;
        lemma_not_prefix_at(t, kw_host(), 0);
        lemma_not_prefix_at(t, kw_hostname(), 0);
        lemma_not_prefix_at(t, kw_user(), 0);
        lemma_not_prefix_at(t, kw_port(), 0);
        assert(t.subrange(0, 13) =~= kw_identity_file());
    } else {
        lemma_keyword_line_empty(kw_identity_file());
        let t = kw_identity_file().drop_last();
        lemma_not_prefix_at(t, kw_host(), 0);
        lemma_not_prefix_at(t, kw_hostname(), 0);
        lemma_not_prefix_at(t, kw_user(), 0);
        lemma_not_prefix_at(t, kw_port(), 0);
        lemma_not_prefix_at(t, kw_identity_file(), 0);
        assert(e.identity_file =~= Seq::<char>::empty());
    }
    assert(s5 == ScanState { done: closed_blocks(st), open: Some(e) });
    let empty = Seq::<char>::empty();
    assert(trim(empty) =~= empty);
    lemma_not_prefix_at(empty, kw_host(), 0);
    lemma_not_prefix_at(empty, kw_hostname(), 0);
    lemma_not_prefix_at(empty, kw_user(), 0);
    lemma_not_prefix_at(empty, kw_port(), 0);
    lemma_not_prefix_at(empty, kw_identity_file(), 0);
}

/// Appending a written block to any config text adds exactly that block
/// to what is read back, after the blocks the text already had.
pub proof fn lemma_append_host_block(text: Seq<char>, e: HostModel)
    requires
        writable_host(e),
    ensures
        parse_hosts(text + render_host(e)) == parse_hosts(text).push(e),
{
    let l1 = kw_host() + e.alias;
    let l2 = indent() + kw_hostname() + e.hostname;
    let l3 = indent() + kw_user() + e.user;
    let l4 = indent() + kw_port() + e.port;
    let l5 = indent() + kw_identity_file() + e.identity_file;
    let nl = seq!['\n'];
    assert forall|x: Seq<char>, i: int|
        (x == l1 || x == l2 || x == l3 || x == l4 || x == l5) && 0 <= i < x.len() implies
        #[trigger] x[i] != '\n' by {
        assert(is_ws('\n'));
        if x == l1 {
            if i >= 5 { assert(x[i] == e.alias[i - 5]); }
        } else if x == l2 {
            if i >= 13 { assert(x[i] == e.hostname[i - 13]); }
        } else if x == l3 {
            if i >= 9 { assert(x[i] == e.user[i - 9]); }
        } else if x == l4 {
            if i >= 9 { assert(x[i] == e.port[i - 9]); }
        } else {
            if i >= 17 { assert(x[i] == e.identity_file[i - 17]); }
        }
    }
    let upto_host = text + nl + l1;
    let upto_hostname = upto_host + nl + l2;
    let upto_user = upto_hostname + nl + l3;
    let upto_port = upto_user + nl + l4;
    let upto_identity = upto_port + nl + l5;
    let whole = upto_identity + nl + Seq::<char>::empty();
    assert(text + render_host(e) =~= whole);
    lemma_split_lines_push_line(text, l1);
    lemma_split_lines_push_line(upto_host, l2);
    lemma_split_lines_push_line(upto_hostname, l3);
    lemma_split_lines_push_line(upto_user, l4);
    lemma_split_lines_push_line(upto_port, l5);
    lemma_split_lines_push_line(upto_identity, Seq::empty());
    let ls = split_lines(text);
    assert(split_lines(whole) == ls.push(l1).push(l2).push(l3).push(l4).push(l5).push(
        Seq::empty(),
    ));
    assert(ls.push(l1).drop_last() =~= ls);
    assert(ls.push(l1).push(l2).drop_last() =~= ls.push(l1));
    assert(ls.push(l1).push(l2).push(l3).drop_last() =~= ls.push(l1).push(l2));
    assert(ls.push(l1).push(l2).push(l3).push(l4).drop_last() =~= ls.push(l1).push(l2).push(l3));
    assert(ls.push(l1).push(l2).push(l3).push(l4).push(l5).drop_last() =~= ls.push(l1).push(
        l2,
    ).push(l3).push(l4));
    assert(ls.push(l1).push(l2).push(l3).push(l4).push(l5).push(Seq::empty()).drop_last()
        =~= ls.push(l1).push(l2).push(l3).push(l4).push(l5));
    lemma_scan_block(scan_lines(ls), e);
    let q1 = ls.push(l1);
    let q2 = q1.push(l2);
    let q3 = q2.push(l3);
    let q4 = q3.push(l4);
    let q5 = q4.push(l5);
    let q6 = q5.push(Seq::<char>::empty());
    assert(scan_lines(q1) == scan_line(scan_lines(ls), l1));
    assert(scan_lines(q2) == scan_line(scan_lines(q1), l2));
    assert(scan_lines(q3) == scan_line(scan_lines(q2), l3));
    assert(scan_lines(q4) == scan_line(scan_lines(q3), l4));
    assert(scan_lines(q5) == scan_line(scan_lines(q4), l5));
    assert(scan_lines(q6) == scan_line(scan_lines(q5), Seq::<char>::empty()));
}

/// A written block reads back as the one entry it was written from.
pub proof fn lemma_host_block_round_trip(e: HostModel)
    requires
        writable_host(e),
    ensures
        parse_hosts(render_host(e)) == seq![e],
{
    let empty = Seq::<char>::empty();
    lemma_append_host_block(empty, e);
    assert(empty + render_host(e) =~= render_host(e));
    assert(split_lines(empty) == seq![empty]);
    assert(seq![empty].drop_last() =~= Seq::<Seq<char>>::empty());
    assert(trim(empty) =~= empty);
    let init = ScanState { done: Seq::<HostModel>::empty(), open: None };
    assert(scan_lines(Seq::<Seq<char>>::empty()) == init);
    assert(scan_lines(seq![empty]) == scan_line(init, empty));
    assert(!has_prefix(empty, kw_host()));
    assert(scan_line(init, empty) == init);
    assert(parse_hosts(empty) =~= Seq::<HostModel>::empty());
    assert(parse_hosts(empty).push(e) =~= seq![e]);
}

proof fn lemma_skip_ws_bounds(s: Seq<char>, i: int)
    requires
        0 <= i <= s.len(),
    ensures
        i <= skip_ws(s, i) <= s.len(),
        skip_ws(s, i) < s.len() ==> !is_ws(s[skip_ws(s, i)]),
        forall|k: int| i <= k < skip_ws(s, i) ==> is_ws(#[trigger] s[k]),
    decreases s.len() - i,
{
    if i < s.len() && is_ws(s[i]) {
        lemma_skip_ws_bounds(s, i + 1);
    }
}

proof fn lemma_skip_word_bounds(s: Seq<char>, i: int)
    requires
        0 <= i <= s.len(),
    ensures
        i <= skip_word(s, i) <= s.len(),
        forall|k: int| i <= k < skip_word(s, i) ==> !is_ws(#[trigger] s[k]),
    decreases s.len() - i,
{
    if i < s.len() && !is_ws(s[i]) {
        lemma_skip_word_bounds(s, i + 1);
    }
}

proof fn lemma_trim_end_bounds(s: Seq<char>, i: int)
    requires
        0 <= i <= s.len(),
    ensures
        0 <= trim_end(s, i) <= i,
        trim_end(s, i) > 0 ==> !is_ws(s[trim_end(s, i) - 1]),
    decreases i,
{
    if i > 0 && is_ws(s[i - 1]) {
        lemma_trim_end_bounds(s, i - 1);
    }
}

/// A trimmed line ends with a character that is not whitespace.
proof fn lemma_trim_last(line: Seq<char>)
    ensures
        trim(line).len() > 0 ==> !is_ws(trim(line).last()),
{
    lemma_skip_ws_bounds(line, 0);
    lemma_trim_end_bounds(line, line.len() as int);
}

/// The second word holds no whitespace.
proof fn lemma_second_word_ws_free(s: Seq<char>)
    ensures
        ws_free(second_word(s)),
{
    lemma_skip_ws_bounds(s, 0);
    let a = skip_ws(s, 0);
    lemma_skip_word_bounds(s, a);
    let b = skip_word(s, a);
    lemma_skip_ws_bounds(s, b);
    let c = skip_ws(s, b);
    lemma_skip_word_bounds(s, c);
    let d = skip_word(s, c);
    assert forall|i: int| 0 <= i < second_word(s).len() implies !is_ws(#[trigger] second_word(s)[i]) by {
        assert(second_word(s)[i] == s[c + i]);
    }
}

/// The alias on a trimmed `Host` line is a single word.
proof fn lemma_host_alias(t: Seq<char>)
    requires
        has_prefix(t, kw_host()),
        !is_ws(t.last()),
    ensures
        is_token(second_word(t)),
{
    lemma_second_word_ws_free(t);
    assert(t.subrange(0, 5) == kw_host());
    assert forall|k: int| 0 <= k < 4 implies !is_ws(#[trigger] t[k]) by {
        assert(t[k] == t.subrange(0, 5)[k]);
    }
    assert(t[4] == t.subrange(0, 5)[4]);
    lemma_skip_ws_run(t, 0, 0);
    lemma_skip_word_run(t, 0, 4);
    lemma_skip_ws_bounds(t, 4);
    let c = skip_ws(t, 4);
    assert(c < t.len()) by {
        if c >= t.len() {
            assert(is_ws(t[t.len() - 1]));
        }
    }
    assert(!is_ws(t[c]));
    lemma_skip_word_bounds(t, c + 1);
    assert(skip_word(t, c) == skip_word(t, c + 1));
}

pub open spec fn all_writable(hs: Seq<HostModel>) -> bool {
    forall|i: int| 0 <= i < hs.len() ==> writable_host(#[trigger] hs[i])
}

proof fn lemma_scan_writable(lines: Seq<Seq<char>>)
    ensures
        all_writable(scan_lines(lines).done),
        scan_lines(lines).open matches Some(e) ==> writable_host(e),
    decreases lines.len(),
{
    if lines.len() > 0 {
        lemma_scan_writable(lines.drop_last());
        let st = scan_lines(lines.drop_last());
        let t = trim(lines.last());
        lemma_trim_last(lines.last());
        lemma_second_word_ws_free(t);
        if has_prefix(t, kw_host()) {
            lemma_host_alias(t);
            let d = closed_blocks(st);
            assert(all_writable(d));
        }
    }
}

/// Every entry read from a config text is written back as a block that
/// reads back as that same entry.
pub proof fn lemma_parsed_entry_round_trip(text: Seq<char>, i: int)
    requires
        0 <= i < parse_hosts(text).len(),
    ensures
        parse_hosts(render_host(parse_hosts(text)[i])) == seq![parse_hosts(text)[i]],
{
    let st = scan_lines(split_lines(text));
    lemma_scan_writable(split_lines(text));
    assert(all_writable(closed_blocks(st)));
    lemma_host_block_round_trip(parse_hosts(text)[i]);
}

} // verus!
