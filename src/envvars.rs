use vstd::prelude::*;
use vstd::string::StrSliceExecFns;
use vstd::utf8::encode_utf8;

use crate::types::{ConnID, PortID};

verus! {

broadcast use vstd::string::to_string_from_display_ensures_for_str;

/// The characters of a string, in order.
pub(crate) fn chars_of(s: &str) -> (r: Vec<char>)
    ensures
        r@ == s@,
{
    let n = s.unicode_len();
    let mut v: Vec<char> = Vec::new();
    let mut i: usize = 0;
    while i < n
        invariant
            n == s@.len(),
            i <= n,
            v@ == s@.subrange(0, i as int),
        decreases n - i,
    {
        v.push(s.get_char(i));
        i += 1;
        assert(v@ =~= s@.subrange(0, i as int));
    }
    assert(s@.subrange(0, i as int) =~= s@);
    v
}

/// Relies on String::from_iter: the string of exactly these characters.
#[verifier::external_body]
fn string_of(v: &Vec<char>) -> (r: String)
    ensures
        r@ == v@,
{
    String::from_iter(v.iter())
}

/// What str::to_uppercase gives for a string.
pub uninterp spec fn upper_of(s: Seq<char>) -> Seq<char>;

/// Relies on str::to_uppercase: the result depends on the characters alone.
#[verifier::external_body]
fn to_upper(s: &str) -> (r: String)
    ensures
        r@ == upper_of(s@),
{
    s.to_uppercase()
}

/// Bytes that percent-encoding keeps: ASCII letters, digits and `-._~`.
pub open spec fn unreserved(b: u8) -> bool {
    (48 <= b <= 57) || (65 <= b <= 90) || (97 <= b <= 122) || b == 45 || b == 46 || b == 95
        || b == 126
}

/// Upper-case hexadecimal digit of `d < 16`.
pub open spec fn hex_digit(d: u8) -> char {
    if d < 10 {
        (48 + d) as u8 as char
    } else {
        (55 + d) as u8 as char
    }
}

/// Percent-encoding of bytes: kept where unreserved, `%XX` otherwise.
pub open spec fn percent_encode(b: Seq<u8>) -> Seq<char>
    decreases b.len(),
{
    if b.len() == 0 {
        Seq::empty()
    } else {
        let x = b.last();
        percent_encode(b.drop_last()) + if unreserved(x) {
            seq![x as char]
        } else {
            seq!['%', hex_digit(x / 16), hex_digit(x % 16)]
        }
    }
}

/// The URL encoding of a string: its UTF-8 bytes, percent-encoded.
pub open spec fn url_encoded(s: Seq<char>) -> Seq<char> {
    percent_encode(encode_utf8(s))
}

/// Relies on urlencoding::encode: every UTF-8 byte but alphanumerics and
/// `-._~` becomes `%` and two upper-case hex digits.
#[verifier::external_body]
fn url_encode(s: &str) -> (r: String)
    ensures
        r@ == url_encoded(s@),
{
    urlencoding::encode(s).into_owned()
}

/// The character of a decimal digit.
pub open spec fn digit_char(d: nat) -> char {
    ((48 + d) as u8) as char
}

/// Decimal notation of `n`, without leading zeros.
pub open spec fn decimal(n: nat) -> Seq<char>
    decreases n,
{
    if n < 10 {
        seq![digit_char(n)]
    } else {
        decimal(n / 10).push(digit_char(n % 10))
    }
}

/// The decimal digits of `n`.
pub fn decimal_chars(n: u32) -> (r: Vec<char>)
    ensures
        r@ == decimal(n as nat),
    decreases n,
{
    if n < 10 {
        vec![((48 + n) as u8) as char]
    } else {
        let mut v = decimal_chars(n / 10);
        v.push(((48 + n % 10) as u8) as char);
        v
    }
}

/// `s` with every occurrence of `pat`, scanned left to right without
/// overlap, replaced by `rep`.
pub open spec fn replace_all(s: Seq<char>, pat: Seq<char>, rep: Seq<char>) -> Seq<char>
    decreases s.len(),
{
    if s.len() == 0 {
        s
    } else if 0 < pat.len() <= s.len() && s.subrange(0, pat.len() as int) == pat {
        rep + replace_all(s.subrange(pat.len() as int, s.len() as int), pat, rep)
    } else {
        seq![s[0]] + replace_all(s.subrange(1, s.len() as int), pat, rep)
    }
}

/// Whether `pat` occurs in `s` at position `i`.
fn occurs_at(s: &Vec<char>, i: usize, pat: &Vec<char>) -> (r: bool)
    requires
        i <= s@.len(),
    ensures
        r == (i + pat@.len() <= s@.len() && s@.subrange(i as int, i + pat@.len()) == pat@),
{
    if pat.len() > s.len() - i {
        return false;
    }
    let mut j: usize = 0;
    while j < pat.len()
        invariant
            i + pat@.len() <= s@.len(),
            s@.len() <= usize::MAX,
            j <= pat@.len(),
            forall|k: int| 0 <= k < j ==> s@[i + k] == pat@[k],
        decreases pat@.len() - j,
    {
        if s[i + j] != pat[j] {
            assert(s@.subrange(i as int, i + pat@.len())[j as int] != pat@[j as int]);
            return false;
        }
        j += 1;
    }
    assert(s@.subrange(i as int, i + pat@.len()) =~= pat@);
    true
}

/// Append every character of `src` to `dst`.
fn push_all(dst: &mut Vec<char>, src: &Vec<char>)
    ensures
        final(dst)@ == old(dst)@ + src@,
{
    let mut j: usize = 0;
    while j < src.len()
        invariant
            j <= src@.len(),
            dst@ == old(dst)@ + src@.subrange(0, j as int),
        decreases src@.len() - j,
    {
        dst.push(src[j]);
        j += 1;
        assert(dst@ =~= old(dst)@ + src@.subrange(0, j as int));
    }
    assert(src@.subrange(0, j as int) =~= src@);
}

/// Replace every occurrence of `pat` in `s` by `rep`.
pub fn replace_chars(s: &Vec<char>, pat: &Vec<char>, rep: &Vec<char>) -> (r: Vec<char>)
    requires
        pat@.len() > 0,
    ensures
        r@ == replace_all(s@, pat@, rep@),
{
    let mut out: Vec<char> = Vec::new();
    let mut i: usize = 0;
    assert(s@.subrange(0, s@.len() as int) =~= s@);
    assert(out@ + replace_all(s@, pat@, rep@) =~= replace_all(s@, pat@, rep@));
    while i < s.len()
        invariant
            i <= s@.len(),
            pat@.len() > 0,
            replace_all(s@, pat@, rep@) == out@ + replace_all(
                s@.subrange(i as int, s@.len() as int),
                pat@,
                rep@,
            ),
        decreases s@.len() - i,
    {
        let ghost rest = s@.subrange(i as int, s@.len() as int);
        if occurs_at(s, i, pat) {
            assert(rest.subrange(0, pat@.len() as int) =~= s@.subrange(
                i as int,
                i + pat@.len(),
            ));
            assert(rest.subrange(pat@.len() as int, rest.len() as int) =~= s@.subrange(
                i + pat@.len(),
                s@.len() as int,
            ));
            let ghost before = out@;
            push_all(&mut out, rep);
            i = i + pat.len();
            assert(before + (rep@ + replace_all(
                s@.subrange(i as int, s@.len() as int),
                pat@,
                rep@,
            )) =~= out@ + replace_all(s@.subrange(i as int, s@.len() as int), pat@, rep@));
        } else {
            proof {
                if pat@.len() <= rest.len() {
                    assert(rest.subrange(0, pat@.len() as int) =~= s@.subrange(
                        i as int,
                        i + pat@.len(),
                    ));
                }
            }
            assert(rest.subrange(1, rest.len() as int) =~= s@.subrange(
                i + 1,
                s@.len() as int,
            ));
            let ghost before = out@;
            out.push(s[i]);
            i = i + 1;
            assert(before + (seq![rest[0]] + replace_all(
                s@.subrange(i as int, s@.len() as int),
                pat@,
                rep@,
            )) =~= out@ + replace_all(s@.subrange(i as int, s@.len() as int), pat@, rep@));
        }
    }
    assert(s@.subrange(i as int, s@.len() as int) =~= Seq::<char>::empty());
    assert(out@ + replace_all(Seq::<char>::empty(), pat@, rep@) =~= out@);
    out
}

/// CGI-style variables of a connection.
#[derive(Clone, Debug, Default)]
pub struct CGIEnv {
    /// URL-encoded search or parameter string
    pub query_string: String,
    /// network address of the client sending the request
    pub remote_addr: String,
    /// room name (non standard)
    pub room: String,
}

/// Environment snapshot of a connection: CGI variables and query parameters,
/// the latter in the order they are substituted. Where a name repeats, or
/// two names agree once in upper case, the first value takes the placeholder.
#[derive(Clone, Debug, Default)]
pub struct Env {
    pub cgi: CGIEnv,
    pub query: Vec<(String, String)>,
}

/// A list of named strings as pairs of character sequences.
pub open spec fn pairs_view(v: Seq<(String, String)>) -> Seq<(Seq<char>, Seq<char>)> {
    v.map_values(|kv: (String, String)| (kv.0@, kv.1@))
}

/// The CGI variables under their upper-case names.
pub open spec fn cgi_pairs(cgi: CGIEnv) -> Seq<(Seq<char>, Seq<char>)> {
    seq![
        ("QUERY_STRING"@, cgi.query_string@),
        ("REMOTE_ADDR"@, cgi.remote_addr@),
        ("ROOM"@, cgi.room@),
    ]
}

/// Query parameters with their names in upper case.
pub open spec fn upper_keys(q: Seq<(Seq<char>, Seq<char>)>) -> Seq<(Seq<char>, Seq<char>)> {
    q.map_values(|kv: (Seq<char>, Seq<char>)| (upper_of(kv.0), kv.1))
}

/// The value substituted for a variable: URL-encoded or raw.
pub open spec fn substituted(v: Seq<char>, urlencode: bool) -> Seq<char> {
    if urlencode {
        url_encoded(v)
    } else {
        v
    }
}

/// `t` after replacing, for each variable in turn, `prefix` followed by its
/// name with its value.
pub open spec fn replace_vars(
    t: Seq<char>,
    vars: Seq<(Seq<char>, Seq<char>)>,
    prefix: Seq<char>,
    urlencode: bool,
) -> Seq<char>
    decreases vars.len(),
{
    if vars.len() == 0 {
        t
    } else {
        replace_all(
            replace_vars(t, vars.drop_last(), prefix, urlencode),
            prefix + vars.last().0,
            substituted(vars.last().1, urlencode),
        )
    }
}

/// A template with `#ID` set to the connection id, then every CGI variable
/// `#KEY` raw, then every query parameter `#QUERY_KEY` URL-encoded.
pub open spec fn expand_template(template: Seq<char>, conn: ConnID, env: Env) -> Seq<char> {
    let t = replace_all(template, "#ID"@, decimal(conn as nat));
    let t = replace_vars(t, cgi_pairs(env.cgi), "#"@, false);
    replace_vars(t, upper_keys(pairs_view(env.query@)), "#QUERY_"@, true)
}

impl Env {
    /// Record the room in the CGI variables.
    pub fn set_room(&mut self, room: &str) -> (r: &mut Self)
        ensures
            r.cgi.room@ == room@,
            r.cgi.query_string == old(self).cgi.query_string,
            r.cgi.remote_addr == old(self).cgi.remote_addr,
            r.query == old(self).query,
            *final(self) == *final(r),
    {
        self.cgi.room = room.to_string();
        self
    }
}

impl CGIEnv {
    /// Variables of a request: its raw query string and the client's address,
    /// each empty when absent; the room is set later.
    pub fn from_filter(query_string: Option<String>, remote_addr: Option<String>) -> (r: Self)
        ensures
            r.query_string@ == (match query_string {
                Some(q) => q@,
                None => Seq::empty(),
            }),
            r.remote_addr@ == (match remote_addr {
                Some(a) => a@,
                None => Seq::empty(),
            }),
            r.room@ == Seq::<char>::empty(),
    {
        let query_string = match query_string {
            Some(q) => q,
            None => String::new(),
        };
        let remote_addr = match remote_addr {
            Some(a) => a,
            None => String::new(),
        };
        CGIEnv { query_string, remote_addr, room: String::new() }
    }

    /// The variables as name and value, names in upper case.
    pub fn vars(&self) -> (r: Vec<(String, String)>)
        ensures
            pairs_view(r@) == cgi_pairs(*self),
    {
        let mut r: Vec<(String, String)> = Vec::new();
        r.push(("QUERY_STRING".to_string(), self.query_string.clone()));
        r.push(("REMOTE_ADDR".to_string(), self.remote_addr.clone()));
        r.push(("ROOM".to_string(), self.room.clone()));
        assert(pairs_view(r@) =~= cgi_pairs(*self));
        r
    }
}

/// The pairs with every name in upper case.
pub fn keys_upper(vars: &Vec<(String, String)>) -> (r: Vec<(String, String)>)
    ensures
        pairs_view(r@) == upper_keys(pairs_view(vars@)),
{
    let mut r: Vec<(String, String)> = Vec::new();
    let mut i: usize = 0;
    while i < vars.len()
        invariant
            i <= vars@.len(),
            pairs_view(r@) == upper_keys(pairs_view(vars@.subrange(0, i as int))),
        decreases vars@.len() - i,
    {
        let ghost before = r@;
        let key = to_upper(vars[i].0.as_str());
        let value = vars[i].1.clone();
        r.push((key, value));
        assert(pairs_view(r@) =~= pairs_view(before).push((upper_of(vars@[i as int].0@), vars@[i as int].1@)));
        i += 1;
        assert(pairs_view(vars@.subrange(0, i as int)) =~= pairs_view(vars@.subrange(0, i - 1)).push((vars@[i - 1].0@, vars@[i - 1].1@)));
        assert(pairs_view(r@) =~= upper_keys(pairs_view(vars@.subrange(0, i as int))));
    }
    assert(vars@.subrange(0, i as int) =~= vars@);
    r
}

/// Replace in `template`, for each variable in turn, `prefix` followed by its
/// name with its value, URL-encoded where `urlencode` is set.
pub fn replace_template(
    template: String,
    vars: &Vec<(String, String)>,
    prefix: &str,
    urlencode: bool,
) -> (r: String)
    requires
        prefix@.len() > 0,
    ensures
        r@ == replace_vars(template@, pairs_view(vars@), prefix@, urlencode),
{
    let mut result = chars_of(template.as_str());
    let prefix_chars = chars_of(prefix);
    let mut i: usize = 0;
    while i < vars.len()
        invariant
            i <= vars@.len(),
            prefix_chars@ == prefix@,
            prefix@.len() > 0,
            result@ == replace_vars(
                template@,
                pairs_view(vars@.subrange(0, i as int)),
                prefix@,
                urlencode,
            ),
        decreases vars@.len() - i,
    {
        let mut pattern = prefix_chars.clone();
        let key = chars_of(vars[i].0.as_str());
        push_all(&mut pattern, &key);
        let value = if urlencode {
            url_encode(vars[i].1.as_str())
        } else {
            vars[i].1.clone()
        };
        let value_chars = chars_of(value.as_str());
        result = replace_chars(&result, &pattern, &value_chars);
        i += 1;
        assert(pairs_view(vars@.subrange(0, i as int)).drop_last() =~= pairs_view(
            vars@.subrange(0, i - 1),
        ));
    }
    assert(vars@.subrange(0, i as int) =~= vars@);
    string_of(&result)
}

/// Expand a join or leave template for connection `conn`: `#ID` first, then
/// the CGI variables as `#KEY`, then the query parameters as `#QUERY_KEY`
/// (URL-encoded), so query values cannot bring back a CGI placeholder.
pub fn replace_template_env(template: &str, conn: ConnID, env: &Env) -> (r: String)
    ensures
        r@ == expand_template(template@, conn, *env),
{
    let id_pattern = chars_of("#ID");
    proof {
        reveal_strlit("#ID");
        reveal_strlit("#");
        reveal_strlit("#QUERY_");
    }
    let with_id = replace_chars(&chars_of(template), &id_pattern, &decimal_chars(conn));
    let cgi_vars = env.cgi.vars();
    let query_vars = keys_upper(&env.query);
    let result = replace_template(string_of(&with_id), &cgi_vars, "#", false);
    replace_template(result, &query_vars, "#QUERY_", true)
}

/// The environment of a child: the host variables whose names are on the
/// allowlist, then the CGI variables, then `PORT` when the child has a port.
pub open spec fn spec_child_env(
    host: Seq<(Seq<char>, Seq<char>)>,
    allow: Seq<Seq<char>>,
    extra: Seq<(Seq<char>, Seq<char>)>,
    port: Option<PortID>,
) -> Seq<(Seq<char>, Seq<char>)> {
    allowed_vars(host, allow) + extra + match port {
        Some(p) => seq![("PORT"@, decimal(p as nat))],
        None => Seq::empty(),
    }
}

/// The variables of `host` whose names are in `allow`, in order.
pub open spec fn allowed_vars(host: Seq<(Seq<char>, Seq<char>)>, allow: Seq<Seq<char>>) -> Seq<
    (Seq<char>, Seq<char>),
>
    decreases host.len(),
{
    if host.len() == 0 {
        host
    } else if allow.contains(host.last().0) {
        allowed_vars(host.drop_last(), allow).push(host.last())
    } else {
        allowed_vars(host.drop_last(), allow)
    }
}

/// A list of strings as character sequences.
pub open spec fn names_view(v: Seq<String>) -> Seq<Seq<char>> {
    v.map_values(|s: String| s@)
}

/// Whether `name` is one of `list`.
fn listed(list: &Vec<String>, name: &String) -> (r: bool)
    ensures
        r == names_view(list@).contains(name@),
{
    let mut i: usize = 0;
    while i < list.len()
        invariant
            i <= list@.len(),
            forall|k: int| 0 <= k < i ==> list@[k]@ != name@,
        decreases list@.len() - i,
    {
        if list[i] == *name {
            assert(names_view(list@)[i as int] == name@);
            return true;
        }
        i += 1;
    }
    proof {
        if names_view(list@).contains(name@) {
            let k = choose|k: int|
                0 <= k < list@.len() && #[trigger] names_view(list@)[k] == name@;
            assert(list@[k]@ == name@);
        }
    }
    false
}

/// Build the environment of a child from the host's variables, the names
/// allowed through, the connection's CGI variables and the child's port.
pub fn child_env(
    host: &Vec<(String, String)>,
    allowlist: &Vec<String>,
    cgi: &CGIEnv,
    port: Option<PortID>,
) -> (r: Vec<(String, String)>)
    ensures
        pairs_view(r@) == spec_child_env(
            pairs_view(host@),
            names_view(allowlist@),
            cgi_pairs(*cgi),
            port,
        ),
{
    let ghost allow = names_view(allowlist@);
    let mut r: Vec<(String, String)> = Vec::new();
    let mut i: usize = 0;
    while i < host.len()
        invariant
            i <= host@.len(),
            allow == names_view(allowlist@),
            pairs_view(r@) == allowed_vars(pairs_view(host@.subrange(0, i as int)), allow),
        decreases host@.len() - i,
    {
        let ghost prev = pairs_view(host@.subrange(0, i as int));
        if listed(allowlist, &host[i].0) {
            r.push((host[i].0.clone(), host[i].1.clone()));
        }
        i += 1;
        assert(pairs_view(host@.subrange(0, i as int)).drop_last() =~= prev);
        assert(pairs_view(r@) =~= allowed_vars(pairs_view(host@.subrange(0, i as int)), allow));
    }
    assert(host@.subrange(0, i as int) =~= host@);
    let ghost filtered = r@;
    let mut extra = cgi.vars();
    r.append(&mut extra);
    match port {
        Some(p) => {
            let digits = decimal_chars(p as u32);
            r.push(("PORT".to_string(), string_of(&digits)));
        },
        None => {},
    }
    assert(pairs_view(r@) =~= spec_child_env(pairs_view(host@), allow, cgi_pairs(*cgi), port));
    r
}

} // verus!
