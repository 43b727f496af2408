//! The remote-control HTTP interface: which request does what.
use vstd::prelude::*;
use crate::num::{parse_i64, parse_i64_spec};
use crate::player::{clamp_volume, clamp_volume_spec};
use crate::text::{
    chars_eq, chars_of, find_char_from, lemma_next_char, slice_chars, split_from,
    split_on, split_once, split_once_chars, str_eq_chars, string_from_chars, lemma_split_once_at,
    lemma_split_once_none,
};

verus! {

/// The value of the first `key=value` pair named `key` among `&`-separated pieces.
pub open spec fn find_param(segs: Seq<Seq<char>>, key: Seq<char>) -> Option<Seq<char>>
    decreases segs.len(),
{
    if segs.len() == 0 {
        None
    } else {
        match split_once(segs[0], '=') {
            Some((k, v)) => if k == key {
                Some(v)
            } else {
                find_param(segs.drop_first(), key)
            },
            None => find_param(segs.drop_first(), key),
        }
    }
}

/// The value of parameter `key` in a query string.
pub open spec fn get_param_spec(query: Seq<char>, key: Seq<char>) -> Option<Seq<char>> {
    find_param(split_on(query, '&'), key)
}

fn param_in(q: &Vec<char>, key: &Vec<char>) -> (r: Option<Vec<char>>)
    ensures
        match r {
            Some(v) => get_param_spec(q@, key@) == Some(v@),
            None => get_param_spec(q@, key@) is None,
        },
{
    let mut start: usize = 0;
    loop
        invariant
            start <= q.len(),
            get_param_spec(q@, key@) == find_param(split_from(q@, '&', start as int), key@),
        decreases q.len() - start,
    {
        let e = find_char_from(q, '&', start);
        proof {
            lemma_next_char(q@, '&', start as int);
        }
        let seg = slice_chars(q, start, e);
        proof {
            if e >= q.len() {
                assert(split_from(q@, '&', start as int) == seq![seg@]);
            } else {
                assert(split_from(q@, '&', start as int) == seq![seg@] + split_from(q@, '&', e + 1));
            }
            let segs = split_from(q@, '&', start as int);
            assert(segs[0] == seg@);
        }
        match split_once_chars(&seg, '=') {
            Some((k, v)) => {
                if chars_eq(&k, key) {
                    return Some(v);
                }
            },
            None => {},
        }
        proof {
            let segs = split_from(q@, '&', start as int);
            assert(find_param(segs, key@) == find_param(segs.drop_first(), key@));
        }
        if e >= q.len() {
            proof {
                let segs = split_from(q@, '&', start as int);
                assert(segs.drop_first().len() == 0);
                assert(find_param(segs.drop_first(), key@) is None);
            }
            return None;
        }
        proof {
            let segs = split_from(q@, '&', start as int);
            assert(segs.drop_first() =~= split_from(q@, '&', e + 1));
        }
        start = e + 1;
    }
}

/// The value of parameter `key` in a query string such as `t=120&x=1`.
pub fn get_param(query: &str, key: &str) -> (r: Option<String>)
    ensures
        match r {
            Some(v) => get_param_spec(query@, key@) == Some(v@),
            None => get_param_spec(query@, key@) is None,
        },
{
    let q = chars_of(query);
    let k = chars_of(key);
    match param_in(&q, &k) {
        Some(v) => Some(string_from_chars(v.as_slice())),
        None => None,
    }
}

/// A command for the player that a request carries.
#[derive(Debug, Clone, Copy, PartialEq, Eq, Structural)]
pub enum RemoteAction {
    TogglePause,
    Pause,
    Resume,
    Stop,
    Next,
    Prev,
    SetVolume(i64),
}

/// What a request asks for.
#[derive(Debug, Clone, PartialEq)]
pub enum RemoteRoute {
    /// `GET /`: the control page.
    Page,
    /// `GET /status`.
    Status,
    /// A command, answered with `{"ok":true}`.
    Command(RemoteAction),
    /// `POST /seek` with the text of its `t` parameter (seconds).
    Seek(String),
    /// `POST /seek` without a `t` parameter.
    SeekMissing,
    /// `POST /volume` without a `v` parameter that reads as an integer.
    VolumeMissing,
    /// Anything else: 404.
    NotFound,
}

/// The same, as values.
pub enum RouteView {
    Page,
    Status,
    Command(RemoteAction),
    Seek(Seq<char>),
    SeekMissing,
    VolumeMissing,
    NotFound,
}

pub open spec fn route_view(r: RemoteRoute) -> RouteView {
    match r {
        RemoteRoute::Page => RouteView::Page,
        RemoteRoute::Status => RouteView::Status,
        RemoteRoute::Command(a) => RouteView::Command(a),
        RemoteRoute::Seek(s) => RouteView::Seek(s@),
        RemoteRoute::SeekMissing => RouteView::SeekMissing,
        RemoteRoute::VolumeMissing => RouteView::VolumeMissing,
        RemoteRoute::NotFound => RouteView::NotFound,
    }
}

/// The path of a request URL (before `?`) and its query (after it, or empty).
pub open spec fn url_parts(url: Seq<char>) -> (Seq<char>, Seq<char>) {
    match split_once(url, '?') {
        Some((p, q)) => (p, q),
        None => (url, Seq::empty()),
    }
}

/// What a request with this method (upper case) and URL asks for.
pub open spec fn route_spec(method: Seq<char>, url: Seq<char>) -> RouteView {
    let (path, query) = url_parts(url);
    if method == "GET"@ && path == "/"@ {
        RouteView::Page
    } else if method == "GET"@ && path == "/status"@ {
        RouteView::Status
    } else if method == "POST"@ && path == "/play"@ {
        RouteView::Command(RemoteAction::TogglePause)
    } else if method == "POST"@ && path == "/pause"@ {
        RouteView::Command(RemoteAction::Pause)
    } else if method == "POST"@ && path == "/resume"@ {
        RouteView::Command(RemoteAction::Resume)
    } else if method == "POST"@ && path == "/stop"@ {
        RouteView::Command(RemoteAction::Stop)
    } else if method == "POST"@ && path == "/next"@ {
        RouteView::Command(RemoteAction::Next)
    } else if method == "POST"@ && path == "/prev"@ {
        RouteView::Command(RemoteAction::Prev)
    } else if method == "POST"@ && path == "/seek"@ {
        match get_param_spec(query, "t"@) {
            Some(t) => RouteView::Seek(t),
            None => RouteView::SeekMissing,
        }
    } else if method == "POST"@ && path == "/volume"@ {
        match get_param_spec(query, "v"@) {
            Some(v) => match parse_i64_spec(v) {
                Some(n) => RouteView::Command(RemoteAction::SetVolume(clamp_volume_spec(n as int) as i64)),
                None => RouteView::VolumeMissing,
            },
            None => RouteView::VolumeMissing,
        }
    } else {
        RouteView::NotFound
    }
}

/// Decides what a request asks for.
pub fn route(method: &str, url: &str) -> (r: RemoteRoute)
    ensures
        route_view(r) == route_spec(method@, url@),
{
    let u = chars_of(url);
    let m = chars_of(method);
    let (path, query) = match split_once_chars(&u, '?') {
        Some((p, q)) => (p, q),
        None => (u, Vec::new()),
    };
    let get = str_eq_chars("GET", &m);
    let post = str_eq_chars("POST", &m);
    if get && str_eq_chars("/", &path) {
        RemoteRoute::Page
    } else if get && str_eq_chars("/status", &path) {
        RemoteRoute::Status
    } else if post && str_eq_chars("/play", &path) {
        RemoteRoute::Command(RemoteAction::TogglePause)
    } else if post && str_eq_chars("/pause", &path) {
        RemoteRoute::Command(RemoteAction::Pause)
    } else if post && str_eq_chars("/resume", &path) {
        RemoteRoute::Command(RemoteAction::Resume)
    } else if post && str_eq_chars("/stop", &path) {
        RemoteRoute::Command(RemoteAction::Stop)
    } else if post && str_eq_chars("/next", &path) {
        RemoteRoute::Command(RemoteAction::Next)
    } else if post && str_eq_chars("/prev", &path) {
        RemoteRoute::Command(RemoteAction::Prev)
    } else if post && str_eq_chars("/seek", &path) {
        match param_in(&query, &chars_of("t")) {
            Some(t) => RemoteRoute::Seek(string_from_chars(t.as_slice())),
            None => RemoteRoute::SeekMissing,
        }
    } else if post && str_eq_chars("/volume", &path) {
        match param_in(&query, &chars_of("v")) {
            Some(v) => match parse_i64(&v) {
                Some(n) => RemoteRoute::Command(RemoteAction::SetVolume(clamp_volume(n))),
                None => RemoteRoute::VolumeMissing,
            },
            None => RemoteRoute::VolumeMissing,
        }
    } else {
        RemoteRoute::NotFound
    }
}

/// A volume command from a request is always between 0 and 150, and only
/// `POST /volume` carries one.
pub proof fn remote_volume_stays_in_range(method: Seq<char>, url: Seq<char>)
    ensures
        route_spec(method, url) matches RouteView::Command(RemoteAction::SetVolume(v)) ==> 0 <= v <= 150
            && method == "POST"@ && url_parts(url).0 == "/volume"@,
{
}

/// The path of a URL: the whole of it when it has no `?`, and what comes before
/// the `?` otherwise (whatever the query after it).
pub proof fn url_path_is_before_the_query(p: Seq<char>, q: Seq<char>)
    requires
        !p.contains('?'),
    ensures
        url_parts(p).0 == p,
        url_parts(p + seq!['?'] + q).0 == p,
{
    lemma_split_once_none(p, '?');
    lemma_split_once_at(p, '?', q);
}

/// The path of a literal without `?`, with or without a query.
proof fn literal_path(p: Seq<char>, q: Seq<char>)
    requires
        forall|i: int| 0 <= i < p.len() ==> p[i] != '?',
    ensures
        url_parts(p).0 == p,
        url_parts(p + seq!['?'] + q).0 == p,
{
    assert(!p.contains('?'));
    url_path_is_before_the_query(p, q);
}

/// Each endpoint does what its name says, whatever query follows it: `GET /`
/// is the page, `GET /status` the status, and `POST /play`, `/pause`,
/// `/resume`, `/stop`, `/next`, `/prev` are the commands of those names
/// (`/play` toggles pause).
pub proof fn endpoints_do_what_they_name(q: Seq<char>)
    ensures
        route_spec("GET"@, "/"@) == RouteView::Page,
        route_spec("GET"@, "/"@ + seq!['?'] + q) == RouteView::Page,
        route_spec("GET"@, "/status"@) == RouteView::Status,
        route_spec("GET"@, "/status"@ + seq!['?'] + q) == RouteView::Status,
        route_spec("POST"@, "/play"@) == RouteView::Command(RemoteAction::TogglePause),
        route_spec("POST"@, "/play"@ + seq!['?'] + q) == RouteView::Command(RemoteAction::TogglePause),
        route_spec("POST"@, "/pause"@) == RouteView::Command(RemoteAction::Pause),
        route_spec("POST"@, "/pause"@ + seq!['?'] + q) == RouteView::Command(RemoteAction::Pause),
        route_spec("POST"@, "/resume"@) == RouteView::Command(RemoteAction::Resume),
        route_spec("POST"@, "/resume"@ + seq!['?'] + q) == RouteView::Command(RemoteAction::Resume),
        route_spec("POST"@, "/stop"@) == RouteView::Command(RemoteAction::Stop),
        route_spec("POST"@, "/stop"@ + seq!['?'] + q) == RouteView::Command(RemoteAction::Stop),
        route_spec("POST"@, "/next"@) == RouteView::Command(RemoteAction::Next),
        route_spec("POST"@, "/next"@ + seq!['?'] + q) == RouteView::Command(RemoteAction::Next),
        route_spec("POST"@, "/prev"@) == RouteView::Command(RemoteAction::Prev),
        route_spec("POST"@, "/prev"@ + seq!['?'] + q) == RouteView::Command(RemoteAction::Prev),
{
    reveal_strlit("GET");
    reveal_strlit("POST");
    reveal_strlit("/");
    reveal_strlit("/status");
    reveal_strlit("/play");
    reveal_strlit("/pause");
    reveal_strlit("/resume");
    reveal_strlit("/stop");
    reveal_strlit("/next");
    reveal_strlit("/prev");
    literal_path("/"@, q);
    literal_path("/status"@, q);
    literal_path("/play"@, q);
    literal_path("/pause"@, q);
    literal_path("/resume"@, q);
    literal_path("/stop"@, q);
    literal_path("/next"@, q);
    literal_path("/prev"@, q);
    assert("GET"@.len() != "POST"@.len());
    assert("GET"@ != "POST"@);
    assert("/"@.len() != "/status"@.len());
    assert("/"@ != "/status"@);
    assert("/play"@.len() != "/pause"@.len());
    assert("/play"@ != "/pause"@);
    assert("/play"@.len() != "/resume"@.len());
    assert("/play"@ != "/resume"@);
    assert("/pause"@.len() != "/resume"@.len());
    assert("/pause"@ != "/resume"@);
    assert("/play"@[1] != "/stop"@[1]);
    assert("/play"@ != "/stop"@);
    assert("/pause"@.len() != "/stop"@.len());
    assert("/pause"@ != "/stop"@);
    assert("/resume"@.len() != "/stop"@.len());
    assert("/resume"@ != "/stop"@);
    assert("/play"@[1] != "/next"@[1]);
    assert("/play"@ != "/next"@);
    assert("/pause"@.len() != "/next"@.len());
    assert("/pause"@ != "/next"@);
    assert("/resume"@.len() != "/next"@.len());
    assert("/resume"@ != "/next"@);
    assert("/stop"@[1] != "/next"@[1]);
    assert("/stop"@ != "/next"@);
    assert("/play"@[2] != "/prev"@[2]);
    assert("/play"@ != "/prev"@);
    assert("/pause"@.len() != "/prev"@.len());
    assert("/pause"@ != "/prev"@);
    assert("/resume"@.len() != "/prev"@.len());
    assert("/resume"@ != "/prev"@);
    assert("/stop"@[1] != "/prev"@[1]);
    assert("/stop"@ != "/prev"@);
    assert("/next"@[1] != "/prev"@[1]);
    assert("/next"@ != "/prev"@);
}

} // verus!
