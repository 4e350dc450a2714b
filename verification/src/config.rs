//! Connection settings, and the login details that the user's SSH config
//! gives for the BBS host.

use vstd::prelude::*;

use crate::text::{
    class_has, find_first, first_in, is_white_space, has_prefix, has_suffix, lemma_pieces_nonempty, pieces, split_pieces, str_chars,
    string_from_chars, trim, trim_bounds, trim_end, trim_start, CharClass,
};

verus! {

broadcast use vstd::string::group_string_axioms;

#[derive(Clone, Debug, PartialEq, Eq)]
pub struct ConnectionSettings {
    pub host: String,
    pub port: u16,
    pub username: Option<String>,
    pub password: Option<String>,
    /// The `IdentityFile` paths as the SSH config writes them; a leading `~/`
    /// is resolved against the home directory where the keys are read.
    pub identity_files: Vec<String>,
}

/// `bbs.newsmth.net`
pub open spec fn default_host() -> Seq<char> {
    seq!['b', 'b', 's', '.', 'n', 'e', 'w', 's', 'm', 't', 'h', '.', 'n', 'e', 't']
}

impl Default for ConnectionSettings {
    /// The newsmth BBS on port 22, with no login details.
    fn default() -> (s: Self)
        ensures
            s.host@ == default_host(),
            s.port == 22,
            s.username is None,
            s.password is None,
            s.identity_files@.len() == 0,
    {
        let host = "bbs.newsmth.net".to_owned();
        proof {
            reveal_strlit("bbs.newsmth.net");
        }
        assert(host@ =~= default_host());
        ConnectionSettings {
            host,
            port: 22,
            username: None,
            password: None,
            identity_files: Vec::new(),
        }
    }
}

/// The part of the settings an SSH config can change: the port, the user
/// name and the identity files.
pub type LoginView = (u16, Option<Seq<char>>, Seq<Seq<char>>);

pub open spec fn opt_view(o: Option<String>) -> Option<Seq<char>> {
    match o {
        Some(s) => Some(s@),
        None => None,
    }
}

impl ConnectionSettings {
    pub open spec fn login_view(&self) -> LoginView {
        (
            self.port,
            opt_view(self.username),
            self.identity_files@.map_values(|p: String| p@),
        )
    }
}

/// Whether `c` is `l`, or `l` is a lowercase ASCII letter and `c` its
/// uppercase form.
pub open spec fn ascii_lower_matches(c: char, l: char) -> bool {
    c == l || ('a' <= l && l <= 'z' && c as int == l as int - 32)
}

/// Whether `s`, lowercased in ASCII, equals the lowercase text `lit`.
pub open spec fn eq_ascii_lowercase(s: Seq<char>, lit: Seq<char>) -> bool {
    s.len() == lit.len() && forall|i: int|
        0 <= i < s.len() ==> ascii_lower_matches(#[trigger] s[i], lit[i])
}

/// Whether `s`, lowercased in ASCII, starts with the lowercase text `lit`.
pub open spec fn starts_ascii_lowercase(s: Seq<char>, lit: Seq<char>) -> bool {
    lit.len() <= s.len() && eq_ascii_lowercase(s.subrange(0, lit.len() as int), lit)
}

/// A line without its comment: what stands before the first `#`.
pub open spec fn strip_comment(line: Seq<char>) -> Seq<char> {
    line.subrange(0, first_in(line, CharClass::Is('#')))
}

/// A line without its comment and surrounding white space.
pub open spec fn line_body(line: Seq<char>) -> Seq<char> {
    trim(strip_comment(line))
}

pub open spec fn host_keyword() -> Seq<char> {
    seq!['h', 'o', 's', 't', ' ']
}

/// A `Host` line: its body starts with `host ` in any letter case.
pub open spec fn is_host_line(line: Seq<char>) -> bool {
    starts_ascii_lowercase(line_body(line), host_keyword())
}

/// Whether an SSH `Host` pattern matches `host`: `*` matches every host, a
/// pattern ending in `*` matches the hosts that start with what precedes it,
/// any other pattern only the host itself.
pub open spec fn host_pattern_matches(pattern: Seq<char>, host: Seq<char>) -> bool {
    if pattern == seq!['*'] {
        true
    } else if has_suffix(pattern, seq!['*']) {
        has_prefix(host, pattern.drop_last())
    } else {
        pattern == host
    }
}

/// The patterns of a `Host` line: the words after the keyword.
pub open spec fn host_patterns(line: Seq<char>) -> Seq<Seq<char>> {
    let body = line_body(line);
    pieces(body.subrange(4, body.len() as int), CharClass::WhiteSpace)
}

/// A `Host` line one of whose patterns matches `host`.
pub open spec fn host_line_matches(line: Seq<char>, host: Seq<char>) -> bool {
    is_host_line(line) && exists|q: int|
        0 <= q < host_patterns(line).len() && (#[trigger] host_patterns(line)[q]).len() > 0
            && host_pattern_matches(host_patterns(line)[q], host)
}

/// The index of the first line, from `i` on, that is a `Host` line matching
/// `host`.
pub open spec fn matching_host_line(lines: Seq<Seq<char>>, host: Seq<char>, i: int) -> Option<int>
    decreases lines.len() - i,
{
    if i < 0 || i >= lines.len() {
        None
    } else if host_line_matches(lines[i], host) {
        Some(i)
    } else {
        matching_host_line(lines, host, i + 1)
    }
}

/// The index of the first `Host` line from `i` on, or the number of lines.
pub open spec fn next_host_line(lines: Seq<Seq<char>>, i: int) -> int
    decreases lines.len() - i,
{
    if i < 0 || i >= lines.len() {
        lines.len() as int
    } else if is_host_line(lines[i]) {
        i
    } else {
        next_host_line(lines, i + 1)
    }
}

/// The value of a run of decimal digits.
pub open spec fn digits_value(d: Seq<char>) -> int
    decreases d.len(),
{
    if d.len() == 0 {
        0
    } else {
        digits_value(d.drop_last()) * 10 + (d.last() as int - '0' as int)
    }
}

pub open spec fn all_digits(d: Seq<char>) -> bool {
    forall|i: int| 0 <= i < d.len() ==> '0' <= #[trigger] d[i] && d[i] <= '9'
}

/// A port number as `u16::from_str` reads it: an optional `+`, then one or
/// more ASCII digits, with a value that fits.
pub open spec fn parse_port(v: Seq<char>) -> Option<u16> {
    let d = if v.len() > 0 && v[0] == '+' {
        v.drop_first()
    } else {
        v
    };
    if d.len() == 0 || !all_digits(d) || digits_value(d) > 65535 {
        None
    } else {
        Some(digits_value(d) as u16)
    }
}

/// A directive line split into its keyword and its trimmed value, at the
/// first white space; `None` for a line without white space.
pub open spec fn directive(body: Seq<char>) -> Option<(Seq<char>, Seq<char>)> {
    let i = first_in(body, CharClass::WhiteSpace);
    if i >= body.len() {
        None
    } else {
        Some((body.subrange(0, i), trim(body.subrange(i + 1, body.len() as int))))
    }
}

pub open spec fn port_keyword() -> Seq<char> {
    seq!['p', 'o', 'r', 't']
}

pub open spec fn user_keyword() -> Seq<char> {
    seq!['u', 's', 'e', 'r']
}

pub open spec fn identity_file_keyword() -> Seq<char> {
    seq!['i', 'd', 'e', 'n', 't', 'i', 't', 'y', 'f', 'i', 'l', 'e']
}

/// What one line of a host block does: `Port` sets a port that parses,
/// `User` sets the user name, `IdentityFile` adds a key file; keywords are
/// matched in any letter case, and other lines change nothing.
pub open spec fn apply_directive(st: LoginView, line: Seq<char>) -> LoginView {
    match directive(line_body(line)) {
        None => st,
        Some((key, value)) => if eq_ascii_lowercase(key, port_keyword()) {
            match parse_port(value) {
                Some(p) => (p, st.1, st.2),
                None => st,
            }
        } else if eq_ascii_lowercase(key, user_keyword()) {
            (st.0, Some(value), st.2)
        } else if eq_ascii_lowercase(key, identity_file_keyword()) {
            (st.0, st.1, st.2.push(value))
        } else {
            st
        },
    }
}

/// The lines applied in order.
pub open spec fn apply_directives(st: LoginView, lines: Seq<Seq<char>>) -> LoginView
    decreases lines.len(),
{
    if lines.len() == 0 {
        st
    } else {
        apply_directive(apply_directives(st, lines.drop_last()), lines.last())
    }
}

/// What an SSH config does to the login details for `host`: the lines of
/// the block after the first `Host` line that matches `host`, up to the next
/// `Host` line, applied in order; nothing without such a line.
pub open spec fn ssh_config_login(contents: Seq<char>, host: Seq<char>, st: LoginView) -> LoginView {
    let lines = pieces(contents, CharClass::Is('\n'));
    match matching_host_line(lines, host, 0) {
        None => st,
        Some(j) => apply_directives(st, lines.subrange(j + 1, next_host_line(lines, j + 1))),
    }
}

pub proof fn lemma_matching_host_line(lines: Seq<Seq<char>>, host: Seq<char>, i: int)
    ensures
        matching_host_line(lines, host, i) matches Some(j) ==> 0 <= i <= j < lines.len(),
    decreases lines.len() - i,
{
    if 0 <= i < lines.len() && !host_line_matches(lines[i], host) {
        lemma_matching_host_line(lines, host, i + 1);
    }
}

pub proof fn lemma_next_host_line(lines: Seq<Seq<char>>, i: int)
    requires
        0 <= i <= lines.len(),
    ensures
        i <= next_host_line(lines, i) <= lines.len(),
    decreases lines.len() - i,
{
    if i < lines.len() && !is_host_line(lines[i]) {
        lemma_next_host_line(lines, i + 1);
    }
}

impl ConnectionSettings {
    /// Takes the port, user name and identity files from the block of an
    /// SSH config for this host; the host and the password never change.
    pub fn apply_ssh_config(&mut self, contents: &str)
        ensures
            final(self).host == old(self).host,
            final(self).password == old(self).password,
            final(self).login_view() == ssh_config_login(
                contents@,
                old(self).host@,
                old(self).login_view(),
            ),
    {
        let chars = str_chars(contents);
        let n = chars.len();
        assert(chars@.subrange(0, n as int) =~= chars@);
        let lines = split_pieces(&chars, 0, n, CharClass::Is('\n'));
        let ghost ls = pieces(contents@, CharClass::Is('\n'));
        assert(lines@.map_values(|l: Vec<char>| l@) =~= ls);
        let host = str_chars(self.host.as_str());
        let start = match find_matching_host_line(&lines, &host) {
            Some(j) => j,
            None => {
                return;
            },
        };
        let end = find_next_host_line(&lines, start + 1);
        let ghost st0 = self.login_view();
        let ghost block = ls.subrange(start + 1, end as int);
        let mut i = start + 1;
        while i < end
            invariant
                start + 1 <= i <= end <= lines@.len(),
                ls == lines@.map_values(|l: Vec<char>| l@),
                block == ls.subrange(start + 1, end as int),
                self.host == old(self).host,
                self.password == old(self).password,
                self.login_view() == apply_directives(st0, block.take(i - start - 1)),
            decreases end - i,
        {
            assert(block.take(i - start).drop_last() =~= block.take(i - start - 1));
            assert(block.take(i - start).last() == lines@[i as int]@);
            self.apply_directive_line(&lines[i]);
            i += 1;
        }
        assert(block.take(end - start - 1) =~= block);
    }

    /// Applies one line of a host block.
    fn apply_directive_line(&mut self, line: &Vec<char>)
        ensures
            final(self).host == old(self).host,
            final(self).password == old(self).password,
            final(self).login_view() == apply_directive(old(self).login_view(), line@),
    {
        let n = line.len();
        assert(line@.subrange(0, n as int) =~= line@);
        let hash = find_first(line, 0, n, CharClass::Is('#'));
        let (a, b) = trim_bounds(line, 0, hash);
        let ghost body = line_body(line@);
        assert(body == line@.subrange(a as int, b as int));
        let ws = find_first(line, a, b, CharClass::WhiteSpace);
        if ws >= b {
            return;
        }
        let (v0, v1) = trim_bounds(line, ws + 1, b);
        assert(line@.subrange(a as int, ws as int) =~= body.subrange(0, ws - a));
        assert(line@.subrange(ws + 1, b as int) =~= body.subrange(ws - a + 1, body.len() as int));
        let port: Vec<char> = vec!['p', 'o', 'r', 't'];
        let user: Vec<char> = vec!['u', 's', 'e', 'r'];
        let identity: Vec<char> = vec!['i', 'd', 'e', 'n', 't', 'i', 't', 'y', 'f', 'i', 'l', 'e'];
        assert(port@ == port_keyword());
        assert(user@ == user_keyword());
        assert(identity@ == identity_file_keyword());
        if eq_lowercase_at(line, a, ws, &port) {
            match parse_port_at(line, v0, v1) {
                Some(p) => {
                    self.port = p;
                },
                None => {},
            }
        } else if eq_lowercase_at(line, a, ws, &user) {
            self.username = Some(string_from_chars(line, v0, v1));
        } else if eq_lowercase_at(line, a, ws, &identity) {
            let ghost before = self.identity_files@;
            self.identity_files.push(string_from_chars(line, v0, v1));
            assert(self.identity_files@.map_values(|p: String| p@) =~= before.map_values(
                |p: String| p@,
            ).push(line@.subrange(v0 as int, v1 as int)));
        }
    }
}

/// Whether `s[lo..hi]`, lowercased in ASCII, equals the lowercase `lit`.
fn eq_lowercase_at(s: &Vec<char>, lo: usize, hi: usize, lit: &Vec<char>) -> (b: bool)
    requires
        lo <= hi <= s@.len(),
    ensures
        b == eq_ascii_lowercase(s@.subrange(lo as int, hi as int), lit@),
{
    if hi - lo != lit.len() {
        return false;
    }
    let mut i: usize = 0;
    while i < lit.len()
        invariant
            i <= lit@.len(),
            hi - lo == lit@.len(),
            lo <= hi <= s@.len(),
            forall|q: int| 0 <= q < i ==> ascii_lower_matches(#[trigger] s@[lo + q], lit@[q]),
        decreases lit@.len() - i,
    {
        let c = s[lo + i];
        let l = lit[i];
        let lower = 'a' <= l && l <= 'z';
        let upper = 'A' <= c && c <= 'Z';
        let same = c == l || (lower && upper && (c as u32) + 32 == (l as u32));
        if !same {
            assert(s@.subrange(lo as int, hi as int)[i as int] == c);
            return false;
        }
        i += 1;
    }
    assert forall|q: int| 0 <= q < hi - lo implies ascii_lower_matches(
        #[trigger] s@.subrange(lo as int, hi as int)[q],
        lit@[q],
    ) by {
        assert(s@.subrange(lo as int, hi as int)[q] == s@[lo + q]);
    }
    true
}

/// The port `s[lo..hi]` gives, as `parse_port` reads it.
fn parse_port_at(s: &Vec<char>, lo: usize, hi: usize) -> (r: Option<u16>)
    requires
        lo <= hi <= s@.len(),
    ensures
        r == parse_port(s@.subrange(lo as int, hi as int)),
{
    let ghost v = s@.subrange(lo as int, hi as int);
    let start = if lo < hi && s[lo] == '+' {
        lo + 1
    } else {
        lo
    };
    let ghost d = s@.subrange(start as int, hi as int);
    assert(d =~= if v.len() > 0 && v[0] == '+' {
        v.drop_first()
    } else {
        v
    });
    if start == hi {
        return None;
    }
    let mut acc: u32 = 0;
    let mut i = start;
    while i < hi
        invariant
            start <= i <= hi <= s@.len(),
            d == s@.subrange(start as int, hi as int),
            parse_port(s@.subrange(lo as int, hi as int)) == (if d.len() == 0 || !all_digits(d)
                || digits_value(d) > 65535 {
                None
            } else {
                Some(digits_value(d) as u16)
            }),
            all_digits(s@.subrange(start as int, i as int)),
            acc == if digits_value(s@.subrange(start as int, i as int)) > 65535 {
                65536
            } else {
                digits_value(s@.subrange(start as int, i as int))
            },
            digits_value(s@.subrange(start as int, i as int)) >= 0,
        decreases hi - i,
    {
        let c = s[i];
        let ghost prefix = s@.subrange(start as int, i as int);
        let ghost next = s@.subrange(start as int, i + 1);
        assert(next.drop_last() =~= prefix);
        if !('0' <= c && c <= '9') {
            assert(d[i - start] == c);
            return None;
        }
        let digit = (c as u32) - ('0' as u32);
        if acc > 65535 {
            acc = 65536;
        } else {
            acc = acc * 10 + digit;
            if acc > 65535 {
                acc = 65536;
            }
        }
        assert forall|q: int| 0 <= q < next.len() implies '0' <= #[trigger] next[q] && next[q]
            <= '9' by {
            if q < prefix.len() {
                assert(next[q] == prefix[q]);
            }
        }
        i += 1;
    }
    assert(s@.subrange(start as int, i as int) == d);
    if acc > 65535 {
        None
    } else {
        Some(acc as u16)
    }
}

/// Whether `line` is a `Host` line; if so, also where its body starts and
/// ends.
fn host_line_body(line: &Vec<char>) -> (r: Option<(usize, usize)>)
    ensures
        match r {
            Some((a, b)) => is_host_line(line@) && a <= b <= line@.len() && line@.subrange(
                a as int,
                b as int,
            ) == line_body(line@),
            None => !is_host_line(line@),
        },
{
    let n = line.len();
    assert(line@.subrange(0, n as int) =~= line@);
    let hash = find_first(line, 0, n, CharClass::Is('#'));
    let (a, b) = trim_bounds(line, 0, hash);
    let keyword: Vec<char> = vec!['h', 'o', 's', 't', ' '];
    assert(keyword@ == host_keyword());
    if b - a < 5 {
        return None;
    }
    let ghost body = line_body(line@);
    assert(line@.subrange(a as int, a + 5) =~= body.subrange(0, 5));
    if eq_lowercase_at(line, a, a + 5, &keyword) {
        Some((a, b))
    } else {
        None
    }
}

/// Whether a `Host` pattern matches the host.
fn pattern_matches(pattern: &Vec<char>, host: &Vec<char>) -> (b: bool)
    ensures
        b == host_pattern_matches(pattern@, host@),
{
    let n = pattern.len();
    if n == 1 && pattern[0] == '*' {
        assert(pattern@ =~= seq!['*']);
        return true;
    }
    assert(n == 1 && pattern@[0] != '*' ==> pattern@ != seq!['*']);
    if n >= 1 && pattern[n - 1] == '*' {
        assert(pattern@.subrange(n - 1, n as int) =~= seq!['*']);
        let m = host.len();
        if n - 1 > m {
            return false;
        }
        let mut i: usize = 0;
        while i < n - 1
            invariant
                i <= n - 1,
                n - 1 <= m,
                n == pattern@.len(),
                m == host@.len(),
                host_pattern_matches(pattern@, host@) == has_prefix(host@, pattern@.drop_last()),
                forall|q: int| 0 <= q < i ==> host@[q] == pattern@[q],
            decreases n - 1 - i,
        {
            if host[i] != pattern[i] {
                assert(host@.subrange(0, n - 1)[i as int] != pattern@.drop_last()[i as int]);
                return false;
            }
            i += 1;
        }
        assert(host@.subrange(0, n - 1) =~= pattern@.drop_last());
        return true;
    }
    assert(!has_suffix(pattern@, seq!['*'])) by {
        if n >= 1 {
            assert(pattern@.subrange(n - 1, n as int)[0] == pattern@[n - 1]);
        }
    }
    if n != host.len() {
        return false;
    }
    let mut i: usize = 0;
    while i < n
        invariant
            i <= n,
            n == pattern@.len(),
            n == host@.len(),
            host_pattern_matches(pattern@, host@) == (pattern@ == host@),
            forall|q: int| 0 <= q < i ==> host@[q] == pattern@[q],
        decreases n - i,
    {
        if host[i] != pattern[i] {
            return false;
        }
        i += 1;
    }
    assert(host@ =~= pattern@);
    true
}

/// Whether `line` is a `Host` line with a pattern that matches the host.
fn host_line_matches_exec(line: &Vec<char>, host: &Vec<char>) -> (b: bool)
    ensures
        b == host_line_matches(line@, host@),
{
    let (a, b) = match host_line_body(line) {
        Some(r) => r,
        None => {
            return false;
        },
    };
    let ghost body = line_body(line@);
    assert(line@.subrange(a + 4, b as int) =~= body.subrange(4, body.len() as int));
    let words = split_pieces(line, a + 4, b, CharClass::WhiteSpace);
    let ghost ws = host_patterns(line@);
    let mut q: usize = 0;
    while q < words.len()
        invariant
            q <= words@.len(),
            words@.len() == ws.len(),
            ws == host_patterns(line@),
            is_host_line(line@),
            forall|k: int| 0 <= k < words@.len() ==> #[trigger] words@[k]@ == ws[k],
            forall|k: int|
                0 <= k < q ==> !((#[trigger] ws[k]).len() > 0 && host_pattern_matches(
                    ws[k],
                    host@,
                )),
        decreases words@.len() - q,
    {
        if words[q].len() > 0 && pattern_matches(&words[q], host) {
            assert(ws[q as int].len() > 0 && host_pattern_matches(ws[q as int], host@));
            return true;
        }
        q += 1;
    }
    false
}

/// The first `Host` line that matches the host.
fn find_matching_host_line(lines: &Vec<Vec<char>>, host: &Vec<char>) -> (r: Option<usize>)
    ensures
        match r {
            Some(j) => j < lines@.len() && matching_host_line(
                lines@.map_values(|l: Vec<char>| l@),
                host@,
                0,
            ) == Some(j as int),
            None => matching_host_line(lines@.map_values(|l: Vec<char>| l@), host@, 0) is None,
        },
{
    let ghost ls = lines@.map_values(|l: Vec<char>| l@);
    let mut i: usize = 0;
    while i < lines.len()
        invariant
            i <= lines@.len(),
            ls == lines@.map_values(|l: Vec<char>| l@),
            matching_host_line(ls, host@, 0) == matching_host_line(ls, host@, i as int),
        decreases lines@.len() - i,
    {
        assert(ls[i as int] == lines@[i as int]@);
        if host_line_matches_exec(&lines[i], host) {
            return Some(i);
        }
        i += 1;
    }
    None
}

/// The first `Host` line from `start` on, or the number of lines.
fn find_next_host_line(lines: &Vec<Vec<char>>, start: usize) -> (k: usize)
    requires
        start <= lines@.len(),
    ensures
        start <= k <= lines@.len(),
        k == next_host_line(lines@.map_values(|l: Vec<char>| l@), start as int),
{
    let ghost ls = lines@.map_values(|l: Vec<char>| l@);
    let mut i = start;
    while i < lines.len()
        invariant
            start <= i <= lines@.len(),
            ls == lines@.map_values(|l: Vec<char>| l@),
            next_host_line(ls, start as int) == next_host_line(ls, i as int),
        decreases lines@.len() - i,
    {
        assert(ls[i as int] == lines@[i as int]@);
        if host_line_body(&lines[i]).is_some() {
            return i;
        }
        i += 1;
    }
    i
}

/// Why the login form cannot be used.
#[derive(Clone, Copy, Debug, PartialEq, Eq, Structural)]
pub enum LoginFormError {
    /// The port field does not hold a port number.
    InvalidPort,
}

/// The settings the login form gives: the host and user name trimmed, the
/// port read as `u16::from_str` reads it, an empty user name or password as
/// none, and the identity files kept.
pub open spec fn login_form_settings(
    host: Seq<char>,
    port: Seq<char>,
    username: Seq<char>,
    password: Seq<char>,
) -> Option<(Seq<char>, u16, Option<Seq<char>>, Option<Seq<char>>)> {
    match parse_port(port) {
        None => None,
        Some(p) => Some(
            (
                trim(host),
                p,
                if trim(username).len() == 0 {
                    None
                } else {
                    Some(trim(username))
                },
                if password.len() == 0 {
                    None
                } else {
                    Some(password)
                },
            ),
        ),
    }
}

/// The connection settings a filled-in login form stands for, or
/// [`LoginFormError::InvalidPort`] when the port field is not a port.
pub fn settings_from_login_form(
    host: &str,
    port: &str,
    username: &str,
    password: &str,
    identity_files: &Vec<String>,
) -> (r: Result<ConnectionSettings, LoginFormError>)
    ensures
        match r {
            Ok(s) => login_form_settings(host@, port@, username@, password@) == Some(
                (s.host@, s.port, opt_view(s.username), opt_view(s.password)),
            ) && s.identity_files@.map_values(|p: String| p@) == identity_files@.map_values(
                |p: String| p@,
            ),
            Err(e) => e == LoginFormError::InvalidPort && login_form_settings(
                host@,
                port@,
                username@,
                password@,
            ) is None,
        },
{
    let port_chars = str_chars(port);
    let n = port_chars.len();
    assert(port_chars@.subrange(0, n as int) =~= port_chars@);
    let port_value = match parse_port_at(&port_chars, 0, n) {
        Some(p) => p,
        None => {
            return Err(LoginFormError::InvalidPort);
        },
    };
    let host_chars = str_chars(host);
    let hn = host_chars.len();
    assert(host_chars@.subrange(0, hn as int) =~= host_chars@);
    let (h0, h1) = trim_bounds(&host_chars, 0, hn);
    let user_chars = str_chars(username);
    let un = user_chars.len();
    assert(user_chars@.subrange(0, un as int) =~= user_chars@);
    let (u0, u1) = trim_bounds(&user_chars, 0, un);
    let username = if u0 == u1 {
        None
    } else {
        Some(string_from_chars(&user_chars, u0, u1))
    };
    let password = if password.is_empty() {
        None
    } else {
        Some(password.to_owned())
    };
    let mut files: Vec<String> = Vec::new();
    let mut i: usize = 0;
    while i < identity_files.len()
        invariant
            i <= identity_files@.len(),
            files@.len() == i,
            forall|q: int| 0 <= q < i ==> #[trigger] files@[q]@ == identity_files@[q]@,
        decreases identity_files@.len() - i,
    {
        files.push(identity_files[i].clone());
        i += 1;
    }
    assert(files@.map_values(|p: String| p@) =~= identity_files@.map_values(|p: String| p@));
    Ok(
        ConnectionSettings {
            host: string_from_chars(&host_chars, h0, h1),
            port: port_value,
            username,
            password,
            identity_files: files,
        },
    )
}

/// An SSH config without a `Host` line that matches the host leaves the
/// login details as they were.
pub proof fn lemma_ssh_config_without_match(contents: Seq<char>, host: Seq<char>, st: LoginView)
    requires
        matching_host_line(pieces(contents, CharClass::Is('\n')), host, 0) is None,
    ensures
        ssh_config_login(contents, host, st) == st,
{
}

/// A `Host` line that lists the host itself among its patterns, in any
/// position, matches the host.
pub proof fn lemma_host_line_listing_host_matches(line: Seq<char>, host: Seq<char>, q: int)
    requires
        is_host_line(line),
        0 <= q < host_patterns(line).len(),
        host_patterns(line)[q] == host,
        host.len() > 0,
    ensures
        host_line_matches(line, host),
{
    if has_suffix(host, seq!['*']) {
        assert(host.subrange(0, host.drop_last().len() as int) =~= host.drop_last());
    }
    assert(host_pattern_matches(host_patterns(line)[q], host));
}

/// Whether a `Host` line matches depends only on which patterns it lists,
/// not on their order: two `Host` lines with the same patterns, in any
/// order, match the same hosts.
pub proof fn lemma_host_line_pattern_order_irrelevant(l1: Seq<char>, l2: Seq<char>, host: Seq<char>)
    requires
        is_host_line(l1),
        is_host_line(l2),
        host_patterns(l1).to_multiset() == host_patterns(l2).to_multiset(),
    ensures
        host_line_matches(l1, host) == host_line_matches(l2, host),
{
    let p1 = host_patterns(l1);
    let p2 = host_patterns(l2);
    p1.to_multiset_ensures();
    p2.to_multiset_ensures();
    if host_line_matches(l1, host) {
        let q = choose|q: int| 0 <= q < p1.len() && (#[trigger] p1[q]).len() > 0 && host_pattern_matches(p1[q], host);
        assert(p1.contains(p1[q]));
        assert(p1.to_multiset().count(p1[q]) > 0);
        assert(p2.to_multiset().count(p1[q]) > 0);
        assert(p2.contains(p1[q]));
        let q2 = choose|i: int| 0 <= i < p2.len() && p2[i] == p1[q];
        assert(p2[q2].len() > 0 && host_pattern_matches(p2[q2], host));
    }
    if host_line_matches(l2, host) {
        let q = choose|q: int| 0 <= q < p2.len() && (#[trigger] p2[q]).len() > 0 && host_pattern_matches(p2[q], host);
        assert(p2.contains(p2[q]));
        assert(p2.to_multiset().count(p2[q]) > 0);
        assert(p1.to_multiset().count(p2[q]) > 0);
        assert(p1.contains(p2[q]));
        let q1 = choose|i: int| 0 <= i < p1.len() && p1[i] == p2[q];
        assert(p1[q1].len() > 0 && host_pattern_matches(p1[q1], host));
    }
}

/// A config whose first line is a `Host` line listing the host among its
/// patterns, in any position, applies the lines of that block, up to the
/// next `Host` line, to the login details.
pub proof fn lemma_ssh_config_first_block_listing_host(contents: Seq<char>, host: Seq<char>, st: LoginView, q: int)
    requires
        is_host_line(pieces(contents, CharClass::Is('\n'))[0]),
        0 <= q < host_patterns(pieces(contents, CharClass::Is('\n'))[0]).len(),
        host_patterns(pieces(contents, CharClass::Is('\n'))[0])[q] == host,
        host.len() > 0,
    ensures
        ({
            let lines = pieces(contents, CharClass::Is('\n'));
            ssh_config_login(contents, host, st) == apply_directives(st, lines.subrange(1, next_host_line(lines, 1)))
        }),
{
    let lines = pieces(contents, CharClass::Is('\n'));
    lemma_pieces_nonempty(contents, CharClass::Is('\n'));
    lemma_host_line_listing_host_matches(lines[0], host, q);
}

proof fn lemma_first_in_absent(s: Seq<char>, k: CharClass)
    requires
        forall|i: int| 0 <= i < s.len() ==> !class_has(k, #[trigger] s[i]),
    ensures
        first_in(s, k) == s.len(),
    decreases s.len(),
{
    if s.len() > 0 {
        assert forall|i: int| 0 <= i < s.drop_first().len() implies !class_has(k, #[trigger] s.drop_first()[i]) by {
            assert(s.drop_first()[i] == s[i + 1]);
        }
        lemma_first_in_absent(s.drop_first(), k);
    }
}

proof fn lemma_first_in_after(a: Seq<char>, b: Seq<char>, k: CharClass)
    requires
        forall|i: int| 0 <= i < a.len() ==> !class_has(k, #[trigger] a[i]),
    ensures
        first_in(a + b, k) == a.len() + first_in(b, k),
    decreases a.len(),
{
    if a.len() > 0 {
        assert((a + b).drop_first() =~= a.drop_first() + b);
        assert((a + b)[0] == a[0]);
        assert forall|i: int| 0 <= i < a.drop_first().len() implies !class_has(k, #[trigger] a.drop_first()[i]) by {
            assert(a.drop_first()[i] == a[i + 1]);
        }
        lemma_first_in_after(a.drop_first(), b, k);
    } else {
        assert(a + b =~= b);
    }
}

/// A piece of text in directive form: a keyword without white space, one
/// space, and a value that neither starts nor ends with white space; no `#`
/// anywhere.
pub open spec fn directive_text(key: Seq<char>, value: Seq<char>) -> Seq<char> {
    key + seq![' '] + value
}

pub open spec fn plain_word(w: Seq<char>) -> bool {
    forall|i: int| 0 <= i < w.len() ==> !is_white_space(#[trigger] w[i]) && w[i] != '#'
}

pub open spec fn plain_value(v: Seq<char>) -> bool {
    &&& v.len() > 0
    &&& !is_white_space(v[0]) && !is_white_space(v.last())
    &&& forall|i: int| 0 <= i < v.len() ==> #[trigger] v[i] != '#'
}

/// The keyword and value of a line in directive form.
proof fn lemma_directive_of_text(key: Seq<char>, value: Seq<char>)
    requires
        key.len() > 0,
        plain_word(key),
        plain_value(value),
    ensures
        directive(line_body(directive_text(key, value))) == Some((key, value)),
{
    let line = directive_text(key, value);
    assert forall|i: int| 0 <= i < line.len() implies !class_has(CharClass::Is('#'), #[trigger] line[i]) by {
        if i < key.len() {
        } else if i == key.len() {
        } else {
            assert(line[i] == value[i - key.len() - 1]);
        }
    }
    lemma_first_in_absent(line, CharClass::Is('#'));
    assert(strip_comment(line) =~= line);
    assert(line[0] == key[0]);
    assert(trim_start(line) == line);
    assert(line.last() == value.last());
    assert(trim_end(line) == line);
    assert(line_body(line) == line);
    assert forall|i: int| 0 <= i < key.len() implies !class_has(CharClass::WhiteSpace, #[trigger] key[i]) by {}
    lemma_first_in_after(key, seq![' '] + value, CharClass::WhiteSpace);
    assert(key + (seq![' '] + value) =~= line);
    assert((seq![' '] + value)[0] == ' ');
    assert(first_in(seq![' '] + value, CharClass::WhiteSpace) == 0);
    assert(line.subrange(0, key.len() as int) =~= key);
    assert(line.subrange(key.len() as int + 1, line.len() as int) =~= value);
    assert(trim_start(value) == value);
    assert(trim_end(value) == value);
}

/// A `User` line (the keyword in any letter case) sets the user name to its
/// value, an `IdentityFile` line adds its value to the identity files, and a
/// `Port` line whose value is a decimal number of at most 65535 sets the
/// port to that number; nothing else changes.
pub proof fn lemma_directives_set_login_details(st: LoginView, key: Seq<char>, value: Seq<char>)
    requires
        key.len() > 0,
        plain_word(key),
        plain_value(value),
    ensures
        eq_ascii_lowercase(key, seq!['u', 's', 'e', 'r']) ==> apply_directive(st, directive_text(key, value))
            == (st.0, Some(value), st.2),
        eq_ascii_lowercase(key, seq!['i', 'd', 'e', 'n', 't', 'i', 't', 'y', 'f', 'i', 'l', 'e'])
            ==> apply_directive(st, directive_text(key, value)) == (st.0, st.1, st.2.push(value)),
        eq_ascii_lowercase(key, seq!['p', 'o', 'r', 't']) && value[0] != '+' && all_digits(value)
            && digits_value(value) <= 65535 ==> apply_directive(st, directive_text(key, value)) == (
            digits_value(value) as u16,
            st.1,
            st.2,
        ),
{
    lemma_directive_of_text(key, value);
    assert(port_keyword() =~= seq!['p', 'o', 'r', 't']);
    assert(user_keyword() =~= seq!['u', 's', 'e', 'r']);
    assert(identity_file_keyword() =~= seq!['i', 'd', 'e', 'n', 't', 'i', 't', 'y', 'f', 'i', 'l', 'e']);
}

} // verus!
