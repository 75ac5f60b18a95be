//! The HTTP side of the service: where it listens, which requests reach the
//! health endpoint, and what it answers.

use vstd::prelude::*;
use crate::plugins::Plugins;

verus! {

/// The server's settings.
#[derive(Debug)]
pub struct ServerConfig {
    /// The TCP port to listen on, on every interface.
    pub port: u16,
}

/// The decimal digit for `d < 10`.
pub open spec fn digit_char(d: nat) -> char {
    (('0' as int) + d) as char
}

/// `n` in decimal, without leading zeros.
pub open spec fn decimal(n: nat) -> Seq<char>
    decreases n,
{
    if n < 10 {
        seq![digit_char(n)]
    } else {
        decimal(n / 10).push(digit_char(n % 10))
    }
}

/// `c` is one of the digits `0` to `9`.
pub open spec fn is_digit(c: char) -> bool {
    48 <= (c as int) <= 57
}

/// The value of the digit `c`.
pub open spec fn digit_value(c: char) -> int {
    (c as int) - 48
}

/// The number that the digits `s` stand for, read in decimal.
pub open spec fn read_decimal(s: Seq<char>) -> int
    decreases s.len(),
{
    if s.len() == 0 {
        0
    } else {
        read_decimal(s.drop_last()) * 10 + digit_value(s.last())
    }
}

/// `decimal(n)` is made of digits, has no leading zero, and reads back as
/// `n`.
pub proof fn lemma_decimal_reads_back(n: nat)
    ensures
        decimal(n).len() >= 1,
        forall|i: int| 0 <= i < decimal(n).len() ==> is_digit(#[trigger] decimal(n)[i]),
        n > 0 ==> decimal(n)[0] != '0',
        read_decimal(decimal(n)) == n,
    decreases n,
{
    if n < 10 {
        assert(digit_char(n) as int == 48 + n);
        assert(decimal(n).drop_last() =~= Seq::<char>::empty());
        assert(read_decimal(decimal(n)) == read_decimal(Seq::<char>::empty()) * 10 + digit_value(
            decimal(n).last(),
        ));
    } else {
        lemma_decimal_reads_back(n / 10);
        let d = decimal(n);
        assert(digit_char(n % 10) as int == 48 + n % 10);
        assert(d.drop_last() =~= decimal(n / 10));
        assert(d[0] == decimal(n / 10)[0]);
        assert(n / 10 > 0);
        assert forall|i: int| 0 <= i < d.len() implies is_digit(#[trigger] d[i]) by {
            if i < d.len() - 1 {
                assert(d[i] == decimal(n / 10)[i]);
            }
        }
        assert((n / 10) * 10 + n % 10 == n);
        assert(d.last() == digit_char(n % 10));
        assert(digit_value(d.last()) == n % 10);
        assert(read_decimal(d) == read_decimal(d.drop_last()) * 10 + digit_value(d.last()));
        assert(read_decimal(d.drop_last()) == n / 10);
    }
}

/// The decimal digit for `d < 10`, as text.
fn digit_str(d: u16) -> (r: &'static str)
    requires
        d < 10,
    ensures
        r@ == seq![digit_char(d as nat)],
        r@.len() == 1 && is_digit(r@[0]) && digit_value(r@[0]) == d,
{
    proof {
        reveal_strlit("0");
        reveal_strlit("1");
        reveal_strlit("2");
        reveal_strlit("3");
        reveal_strlit("4");
        reveal_strlit("5");
        reveal_strlit("6");
        reveal_strlit("7");
        reveal_strlit("8");
        reveal_strlit("9");
    }
    let r = match d {
        0 => "0",
        1 => "1",
        2 => "2",
        3 => "3",
        4 => "4",
        5 => "5",
        6 => "6",
        7 => "7",
        8 => "8",
        _ => "9",
    };
    assert(r@ =~= seq![digit_char(d as nat)]);
    assert(digit_char(d as nat) as int == 48 + d);
    r
}

/// Appends `n` in decimal to `out`.
fn push_decimal(out: &mut String, n: u16)
    ensures
        final(out)@ == old(out)@ + decimal(n as nat),
    decreases n,
{
    if n >= 10 {
        push_decimal(out, n / 10);
    }
    out.append(digit_str(n % 10));
    proof {
        if n >= 10 {
            assert(decimal(n as nat) == decimal((n / 10) as nat).push(digit_char((n % 10) as nat)));
        }
        assert(out@ =~= old(out)@ + decimal(n as nat));
    }
}

impl ServerConfig {
    /// The address the server listens on: every interface, at `port`.
    pub fn listen_address(&self) -> (r: String)
        ensures
            r@ == "0.0.0.0:"@ + decimal(self.port as nat),
            r@.len() > 8,
            r@.take(8) == seq!['0', '.', '0', '.', '0', '.', '0', ':'],
            forall|i: int| 8 <= i < r@.len() ==> is_digit(#[trigger] r@[i]),
            read_decimal(r@.skip(8)) == self.port as int,
    {
        let mut out = String::new();
        out.append("0.0.0.0:");
        push_decimal(&mut out, self.port);
        proof {
            reveal_strlit("0.0.0.0:");
            lemma_decimal_reads_back(self.port as nat);
            let d = decimal(self.port as nat);
            assert(out@.skip(8) =~= d);
            assert(out@.take(8) =~= seq!['0', '.', '0', '.', '0', '.', '0', ':']);
            assert forall|i: int| 8 <= i < out@.len() implies is_digit(#[trigger] out@[i]) by {
                assert(out@[i] == d[i - 8]);
            }
        }
        out
    }
}

/// The part of a request target before its query: everything up to the
/// first `?`, or all of it where there is none.
pub open spec fn url_path(url: Seq<char>) -> Seq<char>
    decreases url.len(),
{
    if url.len() == 0 || url[0] == '?' {
        Seq::empty()
    } else {
        seq![url[0]] + url_path(url.drop_first())
    }
}

/// Where a request goes.
#[derive(PartialEq, Eq, Structural, Clone, Copy, Debug)]
pub enum Route {
    /// A `GET` of `/health`: the checks are performed and reported.
    Health,
    /// Anything else.
    NotFound,
}

/// Reading `url_path` after the first `i` characters, none of them `?`.
proof fn lemma_url_path_skip(url: Seq<char>, i: int)
    requires
        0 <= i <= url.len(),
        forall|j: int| 0 <= j < i ==> url[j] != '?',
    ensures
        url_path(url) == url.take(i) + url_path(url.skip(i)),
    decreases i,
{
    if i > 0 {
        let u = url.drop_first();
        assert forall|j: int| 0 <= j < i - 1 implies u[j] != '?' by {
            assert(u[j] == url[j + 1]);
        }
        lemma_url_path_skip(u, i - 1);
        assert(u.skip(i - 1) =~= url.skip(i));
        assert(seq![url[0]] + u.take(i - 1) =~= url.take(i));
    } else {
        assert(url.skip(0) =~= url);
    }
}

/// The query of a request target never changes where the request goes: the
/// path of `path?query`, and of `path` alone, is `path`, for any `path`
/// without `?`.
pub proof fn lemma_query_ignored(path: Seq<char>, query: Seq<char>)
    requires
        forall|j: int| 0 <= j < path.len() ==> path[j] != '?',
    ensures
        url_path(path) == path,
        url_path(path + seq!['?'] + query) == path,
{
    lemma_url_path_skip(path, path.len() as int);
    assert(path.take(path.len() as int) =~= path);
    assert(path.skip(path.len() as int) =~= Seq::<char>::empty());
    let url = path + seq!['?'] + query;
    assert forall|j: int| 0 <= j < path.len() implies url[j] != '?' by {
        assert(url[j] == path[j]);
    }
    lemma_url_path_skip(url, path.len() as int);
    assert(url.skip(path.len() as int)[0] == '?');
    assert(url.take(path.len() as int) =~= path);
    assert(url_path(url.skip(path.len() as int)) =~= Seq::<char>::empty());
}

/// Where a request with the given method (a `GET` or not) and target goes:
/// to the health endpoint exactly when it is a `GET` whose path, the target
/// before any query, is `/health`.
pub fn route(is_get: bool, url: &str) -> (r: Route)
    ensures
        r == (if is_get && url_path(url@) == "/health"@ {
            Route::Health
        } else {
            Route::NotFound
        }),
{
    let ghost path = "/health"@;
    proof {
        reveal_strlit("/health");
    }
    let expected = "/health";
    let n = url.unicode_len();
    let m = expected.unicode_len();
    let mut i: usize = 0;
    let mut same = true;
    while i < n
        invariant
            n == url@.len(),
            m == path.len(),
            expected@ == path,
            i <= n,
            forall|j: int| 0 <= j < i ==> url@[j] != '?',
            same == (i <= m && forall|j: int| 0 <= j < i ==> url@[j] == path[j]),
        ensures
            i <= n,
            forall|j: int| 0 <= j < i ==> url@[j] != '?',
            same == (i <= m && forall|j: int| 0 <= j < i ==> url@[j] == path[j]),
            i < n ==> url@[i as int] == '?',
        decreases n - i,
    {
        let c = url.get_char(i);
        if c == '?' {
            break;
        }
        if same {
            if i < m {
                same = c == expected.get_char(i);
            } else {
                same = false;
            }
        }
        i = i + 1;
    }
    proof {
        lemma_url_path_skip(url@, i as int);
        if i < n {
            assert(url@.skip(i as int)[0] == '?');
        }
        assert(url_path(url@) =~= url@.take(i as int));
    }
    if is_get && same && i == m {
        assert(url_path(url@) =~= path);
        Route::Health
    } else {
        proof {
            if url_path(url@) == path {
                assert(url@.take(i as int).len() == path.len());
                assert forall|j: int| 0 <= j < i implies url@[j] == path[j] by {
                    assert(url@.take(i as int)[j] == url@[j]);
                }
            }
        }
        Route::NotFound
    }
}

/// An HTTP answer: status code, `Content-Type` if any, and body (sent with
/// its length as `Content-Length`).
#[derive(Debug)]
pub struct HttpResponse {
    pub status: u16,
    pub content_type: Option<String>,
    pub body: String,
}

/// The answer to a request that does not reach the health endpoint: 404,
/// no headers, body `NOT FOUND`.
pub fn not_found_response() -> (r: HttpResponse)
    ensures
        r.status == 404,
        r.content_type is None,
        r.body@ == "NOT FOUND"@,
{
    HttpResponse { status: 404, content_type: None, body: "NOT FOUND".to_string() }
}

/// The answer of the health endpoint: 200, `application/json`, and the
/// report as body.
pub fn health_response(report_json: String) -> (r: HttpResponse)
    ensures
        r.status == 200,
        r.content_type matches Some(t) && t@ == "application/json"@,
        r.body == report_json,
{
    HttpResponse {
        status: 200,
        content_type: Some("application/json".to_string()),
        body: report_json,
    }
}

/// The health server: its settings and the plugins whose checks it reports.
pub struct Server<'a, P, C> {
    conf: &'a ServerConfig,
    plugins: &'a Plugins<P, C>,
}

impl<'a, P, C> Server<'a, P, C> {
    pub closed spec fn spec_conf(self) -> ServerConfig {
        *self.conf
    }

    pub closed spec fn spec_plugins(self) -> Plugins<P, C> {
        *self.plugins
    }

    /// A server with the settings `conf`, reporting on `plugins`.
    pub fn new(conf: &'a ServerConfig, plugins: &'a Plugins<P, C>) -> (r: Self)
        ensures
            r.spec_conf() == *conf,
            r.spec_plugins() == *plugins,
    {
        Server { conf, plugins }
    }

    /// The server's settings.
    pub fn conf(&self) -> (r: &ServerConfig)
        ensures
            *r == self.spec_conf(),
    {
        self.conf
    }

    /// The plugins the server reports on.
    pub fn plugins(&self) -> (r: &Plugins<P, C>)
        ensures
            *r == self.spec_plugins(),
    {
        self.plugins
    }
}

} // verus!
