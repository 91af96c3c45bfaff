//! A library for sending push notifications using the Pushover API: it
//! validates and persists credentials, assembles a message and optional
//! parameters into the provider's form-encoded request, hands oversized
//! bodies to a paste host, and interprets the provider's responses. The
//! HTTP transport itself is left to the calling program, which feeds the
//! status codes and bodies it received back into this crate.

use vstd::prelude::*;

pub mod config;
pub mod json;
pub mod numtext;

verus! {

use crate::json::{
    escape_onto,
    find_html_url,
    parse_messages,
    spec_escape,
    spec_html_url,
    spec_parse_messages,
    strs_view,
};
use crate::numtext::{i8_dec, spec_dec_int, spec_dec_nat, u32_dec};

/// True for the ASCII characters `[A-Za-z0-9]`.
pub open spec fn spec_is_alnum(c: char) -> bool {
    let u = c as u32;
    (48 <= u <= 57) || (65 <= u <= 90) || (97 <= u <= 122)
}

/// Optional parameters for Pushover API messages.
#[derive(PartialEq, Clone, Debug)]
pub enum Parameters {
    /// A numeric priority from -2 (lowest priority) to 2 (emergency
    /// priority). (Default: 0)
    Priority(i8),
    /// A title for the push notification.
    Title(String),
    /// A string identifying the device to send the notification to.
    Device(String),
    /// The notification sound to play (out of the Pushover-supported
    /// sounds).
    Sound(String),
    /// A supplementary URL to send with the notification.
    URL(String),
    /// A title to give the supplementary URL.
    URLTitle(String),
    /// Upload the full message body to the paste host and link it as a
    /// supplementary URL with title "Full Output (GitHub Gist)". This
    /// option supersedes the URL and URLTitle options if those are also
    /// provided.
    Gist,
    /// Enable debugging output.
    Debug,
}

/// The value a parameter carries, for use in contracts.
pub enum ParamV {
    Priority(int),
    Title(Seq<char>),
    Device(Seq<char>),
    Sound(Seq<char>),
    Url(Seq<char>),
    UrlTitle(Seq<char>),
    Gist,
    Debug,
}

/// The value of one parameter.
pub open spec fn param_view(p: Parameters) -> ParamV {
    match p {
        Parameters::Priority(n) => ParamV::Priority(n as int),
        Parameters::Title(t) => ParamV::Title(t@),
        Parameters::Device(d) => ParamV::Device(d@),
        Parameters::Sound(s) => ParamV::Sound(s@),
        Parameters::URL(u) => ParamV::Url(u@),
        Parameters::URLTitle(t) => ParamV::UrlTitle(t@),
        Parameters::Gist => ParamV::Gist,
        Parameters::Debug => ParamV::Debug,
    }
}

/// The values of a parameter list.
pub open spec fn params_view(s: Seq<Parameters>) -> Seq<ParamV> {
    s.map_values(|p: Parameters| param_view(p))
}

/// The view of a key/value list.
pub open spec fn pairs_view(v: Seq<(String, String)>) -> Seq<(Seq<char>, Seq<char>)> {
    v.map_values(|p: (String, String)| (p.0@, p.1@))
}

/// The views of a list of optional strings.
pub open spec fn opts_view(v: Seq<Option<String>>) -> Seq<Option<Seq<char>>> {
    v.map_values(
        |o: Option<String>|
            match o {
                Some(u) => Some(u@),
                None => None,
            },
    )
}

/// The wire form of the message: capped at 1024 characters.
pub open spec fn spec_truncate(s: Seq<char>) -> Seq<char> {
    if s.len() > 1024 {
        s.take(1024)
    } else {
        s
    }
}

/// Truncates the message to at most 1024 characters for the wire.
pub fn truncate_message(message: &str) -> (r: String)
    ensures
        r@ == spec_truncate(message@),
{
    let n = message.unicode_len();
    if n > 1024 {
        String::from_str(message.substring_char(0, 1024))
    } else {
        String::from_str(message)
    }
}

/// How the parameters, processed in order, extend the request: `pairs` is
/// the key/value list so far, `title` the tracked paste title, `debug` the
/// debug flag so far, and `gists[g..]` the outcomes of the paste uploads
/// still to be consumed, one per remaining paste-upload parameter. A failed
/// (or missing) upload outcome adds no fields.
pub open spec fn spec_apply_params(
    ps: Seq<ParamV>,
    gists: Seq<Option<Seq<char>>>,
    pairs: Seq<(Seq<char>, Seq<char>)>,
    title: Seq<char>,
    debug: bool,
    g: int,
) -> (Seq<(Seq<char>, Seq<char>)>, bool)
    decreases ps.len(),
{
    if ps.len() == 0 {
        (pairs, debug)
    } else {
        let rest = ps.drop_first();
        match ps[0] {
            ParamV::Priority(p) => spec_apply_params(
                rest,
                gists,
                if p == 0 {
                    pairs
                } else {
                    pairs.push(("priority"@, spec_dec_int(p)))
                },
                title,
                debug,
                g,
            ),
            ParamV::Title(t) => spec_apply_params(rest, gists, pairs.push(("title"@, t)), t, debug, g),
            ParamV::Device(d) => spec_apply_params(
                rest,
                gists,
                pairs.push(("device"@, d)),
                title,
                debug,
                g,
            ),
            ParamV::Sound(snd) => spec_apply_params(
                rest,
                gists,
                pairs.push(("sound"@, snd)),
                title,
                debug,
                g,
            ),
            ParamV::Url(u) => spec_apply_params(rest, gists, pairs.push(("url"@, u)), title, debug, g),
            ParamV::UrlTitle(ut) => spec_apply_params(
                rest,
                gists,
                pairs.push(("url_title"@, ut)),
                title,
                debug,
                g,
            ),
            ParamV::Gist => {
                let outcome = if 0 <= g < gists.len() {
                    gists[g]
                } else {
                    None
                };
                spec_apply_params(
                    rest,
                    gists,
                    match outcome {
                        Some(u) => pairs.push(("url"@, u)).push(
                            ("url_title"@, "Full Output (GitHub Gist)"@),
                        ),
                        None => pairs,
                    },
                    title,
                    debug,
                    g + 1,
                )
            },
            ParamV::Debug => spec_apply_params(rest, gists, pairs, title, true, g),
        }
    }
}

/// The first three fields of every request.
pub open spec fn spec_base_pairs(token: Seq<char>, user: Seq<char>, message: Seq<char>) -> Seq<
    (Seq<char>, Seq<char>),
> {
    seq![("token"@, token), ("user"@, user), ("message"@, spec_truncate(message))]
}

/// The complete key/value list of a push request.
pub open spec fn spec_request_pairs(
    token: Seq<char>,
    user: Seq<char>,
    message: Seq<char>,
    ps: Seq<ParamV>,
    gists: Seq<Option<Seq<char>>>,
) -> Seq<(Seq<char>, Seq<char>)> {
    spec_apply_params(ps, gists, spec_base_pairs(token, user, message), "po"@, false, 0).0
}

/// The paste titles in effect at each paste-upload parameter, in order:
/// the most recent earlier title, or `title` where none came before.
pub open spec fn spec_gist_titles(ps: Seq<ParamV>, title: Seq<char>) -> Seq<Seq<char>>
    decreases ps.len(),
{
    if ps.len() == 0 {
        Seq::empty()
    } else {
        match ps[0] {
            ParamV::Title(t) => spec_gist_titles(ps.drop_first(), t),
            ParamV::Gist => seq![title] + spec_gist_titles(ps.drop_first(), title),
            _ => spec_gist_titles(ps.drop_first(), title),
        }
    }
}

/// An assembled notification request: the fields to be form-encoded, and
/// whether the encoded body should be echoed for debugging.
pub struct Request {
    pub pairs: Vec<(String, String)>,
    pub debug: bool,
}

/// Assembles the full key/value list for a push: the credentials, the
/// truncated message, then the parameters in order. Each paste-upload
/// parameter consumes the next entry of `gist_urls` (the outcome of the
/// upload the caller performed); a successful one adds the `url` and
/// `url_title` fields, a failed one adds nothing.
pub fn build_request(
    token: &str,
    user: &str,
    message: &str,
    parameters: &Vec<Parameters>,
    gist_urls: &Vec<Option<String>>,
) -> (r: Request)
    ensures
        pairs_view(r.pairs@) == spec_request_pairs(
            token@,
            user@,
            message@,
            params_view(parameters@),
            opts_view(gist_urls@),
        ),
        r.debug == spec_apply_params(
            params_view(parameters@),
            opts_view(gist_urls@),
            spec_base_pairs(token@, user@, message@),
            "po"@,
            false,
            0,
        ).1,
{
    let mut pairs: Vec<(String, String)> = Vec::new();
    pairs.push((String::from_str("token"), String::from_str(token)));
    pairs.push((String::from_str("user"), String::from_str(user)));
    pairs.push((String::from_str("message"), truncate_message(message)));
    proof {
        assert(pairs_view(pairs@) =~= spec_base_pairs(token@, user@, message@));
        assert(params_view(parameters@).skip(0) =~= params_view(parameters@));
    }
    let mut title = String::from_str("po");
    let mut debug = false;
    let mut g: usize = 0;
    let mut i: usize = 0;
    let ghost psv = params_view(parameters@);
    let ghost gv = opts_view(gist_urls@);
    let ghost base = spec_base_pairs(token@, user@, message@);
    while i < parameters.len()
        invariant
            0 <= i <= parameters.len(),
            0 <= g <= i,
            psv == params_view(parameters@),
            gv == opts_view(gist_urls@),
            gist_urls@.len() == gv.len(),
            spec_apply_params(psv, gv, base, "po"@, false, 0) == spec_apply_params(
                psv.skip(i as int),
                gv,
                pairs_view(pairs@),
                title@,
                debug,
                g as int,
            ),
        decreases parameters.len() - i,
    {
        proof {
            assert(psv[i as int] == param_view(parameters@[i as int]));
            assert(psv.skip(i as int)[0] == psv[i as int]);
            assert(psv.skip(i as int).drop_first() =~= psv.skip(i as int + 1));
        }
        let ghost prev = pairs_view(pairs@);
        match &parameters[i] {
            Parameters::Priority(p) => {
                if *p != 0 {
                    pairs.push((String::from_str("priority"), i8_dec(*p)));
                    proof {
                        assert(pairs_view(pairs@) =~= prev.push(("priority"@, spec_dec_int(*p as int))));
                    }
                }
            },
            Parameters::Title(t) => {
                pairs.push((String::from_str("title"), t.clone()));
                title = t.clone();
                proof {
                    assert(pairs_view(pairs@) =~= prev.push(("title"@, t@)));
                }
            },
            Parameters::Device(d) => {
                pairs.push((String::from_str("device"), d.clone()));
                proof {
                    assert(pairs_view(pairs@) =~= prev.push(("device"@, d@)));
                }
            },
            Parameters::Sound(snd) => {
                pairs.push((String::from_str("sound"), snd.clone()));
                proof {
                    assert(pairs_view(pairs@) =~= prev.push(("sound"@, snd@)));
                }
            },
            Parameters::URL(u) => {
                pairs.push((String::from_str("url"), u.clone()));
                proof {
                    assert(pairs_view(pairs@) =~= prev.push(("url"@, u@)));
                }
            },
            Parameters::URLTitle(ut) => {
                pairs.push((String::from_str("url_title"), ut.clone()));
                proof {
                    assert(pairs_view(pairs@) =~= prev.push(("url_title"@, ut@)));
                }
            },
            Parameters::Gist => {
                if g < gist_urls.len() {
                    proof {
                        assert(gv[g as int] == (match gist_urls@[g as int] {
                            Some(u) => Some(u@),
                            None => None,
                        }));
                    }
                    match &gist_urls[g] {
                        Some(u) => {
                            pairs.push((String::from_str("url"), u.clone()));
                            pairs.push(
                                (
                                    String::from_str("url_title"),
                                    String::from_str("Full Output (GitHub Gist)"),
                                ),
                            );
                            proof {
                                assert(pairs_view(pairs@) =~= prev.push(("url"@, u@)).push(
                                    ("url_title"@, "Full Output (GitHub Gist)"@),
                                ));
                            }
                        },
                        None => {},
                    }
                }
                g = g + 1;
            },
            Parameters::Debug => {
                debug = true;
            },
        }
        i = i + 1;
    }
    proof {
        assert(psv.skip(parameters@.len() as int) =~= Seq::<ParamV>::empty());
    }
    Request { pairs, debug }
}

/// The paste title to use for each paste-upload parameter, in parameter
/// order: the latest title seen before it, or `"po"` when none was.
pub fn gist_titles(parameters: &Vec<Parameters>) -> (r: Vec<String>)
    ensures
        strs_view(r@) == spec_gist_titles(params_view(parameters@), "po"@),
{
    let mut out: Vec<String> = Vec::new();
    let mut title = String::from_str("po");
    let mut i: usize = 0;
    let ghost psv = params_view(parameters@);
    proof {
        assert(psv.skip(0) =~= psv);
        assert(strs_view(out@) =~= Seq::<Seq<char>>::empty());
        assert(Seq::<Seq<char>>::empty() + spec_gist_titles(psv, "po"@) =~= spec_gist_titles(
            psv,
            "po"@,
        ));
    }
    while i < parameters.len()
        invariant
            0 <= i <= parameters.len(),
            psv == params_view(parameters@),
            spec_gist_titles(psv, "po"@) == strs_view(out@) + spec_gist_titles(
                psv.skip(i as int),
                title@,
            ),
        decreases parameters.len() - i,
    {
        proof {
            assert(psv[i as int] == param_view(parameters@[i as int]));
            assert(psv.skip(i as int)[0] == psv[i as int]);
            assert(psv.skip(i as int).drop_first() =~= psv.skip(i as int + 1));
        }
        let ghost prev = strs_view(out@);
        match &parameters[i] {
            Parameters::Title(t) => {
                title = t.clone();
            },
            Parameters::Gist => {
                out.push(title.clone());
                proof {
                    assert(strs_view(out@) =~= prev.push(title@));
                    assert(prev + (seq![title@] + spec_gist_titles(
                        psv.skip(i as int + 1),
                        title@,
                    )) =~= strs_view(out@) + spec_gist_titles(psv.skip(i as int + 1), title@));
                }
            },
            _ => {},
        }
        i = i + 1;
    }
    proof {
        assert(psv.skip(parameters@.len() as int) =~= Seq::<ParamV>::empty());
        assert(strs_view(out@) + Seq::<Seq<char>>::empty() =~= strs_view(out@));
    }
    out
}

/// The parameter list the convenience senders build: the priority first,
/// then each given option in a fixed order, with the paste-upload parameter
/// last when requested.
pub open spec fn spec_send_params(
    priority: int,
    title: Option<&str>,
    device: Option<&str>,
    sound: Option<&str>,
    url: Option<&str>,
    url_title: Option<&str>,
    gist: bool,
) -> Seq<ParamV> {
    seq![ParamV::Priority(priority)] + (match title {
        Some(t) => seq![ParamV::Title(t@)],
        None => Seq::empty(),
    }) + (match device {
        Some(d) => seq![ParamV::Device(d@)],
        None => Seq::empty(),
    }) + (match sound {
        Some(snd) => seq![ParamV::Sound(snd@)],
        None => Seq::empty(),
    }) + (match url {
        Some(u) => seq![ParamV::Url(u@)],
        None => Seq::empty(),
    }) + (match url_title {
        Some(ut) => seq![ParamV::UrlTitle(ut@)],
        None => Seq::empty(),
    }) + (if gist {
        seq![ParamV::Gist]
    } else {
        Seq::empty()
    })
}

/// Builds the parameter vector the convenience senders use.
#[verifier::rlimit(60)]
pub fn send_params(
    priority: i8,
    title: Option<&str>,
    device: Option<&str>,
    sound: Option<&str>,
    url: Option<&str>,
    url_title: Option<&str>,
    gist: bool,
) -> (r: Vec<Parameters>)
    ensures
        params_view(r@) == spec_send_params(
            priority as int,
            title,
            device,
            sound,
            url,
            url_title,
            gist,
        ),
{
    let mut parameters: Vec<Parameters> = Vec::new();
    parameters.push(Parameters::Priority(priority));
    if let Some(t) = title {
        parameters.push(Parameters::Title(String::from_str(t)));
    }
    if let Some(d) = device {
        parameters.push(Parameters::Device(String::from_str(d)));
    }
    if let Some(snd) = sound {
        parameters.push(Parameters::Sound(String::from_str(snd)));
    }
    if let Some(u) = url {
        parameters.push(Parameters::URL(String::from_str(u)));
    }
    if let Some(ut) = url_title {
        parameters.push(Parameters::URLTitle(String::from_str(ut)));
    }
    if gist {
        parameters.push(Parameters::Gist);
    }
    proof {
        assert(params_view(parameters@) =~= spec_send_params(
            priority as int,
            title,
            device,
            sound,
            url,
            url_title,
            gist,
        ));
    }
    parameters
}

/// Assembles the request for a push with the given priority and optional
/// title, device, sound, supplementary URL and URL title. The caller
/// form-encodes and submits the result.
pub fn send_with_url(
    token: &str,
    user: &str,
    message: &str,
    priority: i8,
    title: Option<&str>,
    device: Option<&str>,
    sound: Option<&str>,
    url: Option<&str>,
    url_title: Option<&str>,
) -> (r: Request)
    ensures
        pairs_view(r.pairs@) == spec_request_pairs(
            token@,
            user@,
            message@,
            spec_send_params(priority as int, title, device, sound, url, url_title, false),
            Seq::empty(),
        ),
        !r.debug,
{
    let parameters = send_params(priority, title, device, sound, url, url_title, false);
    let gists: Vec<Option<String>> = Vec::new();
    proof {
        assert(opts_view(gists@) =~= Seq::<Option<Seq<char>>>::empty());
        lemma_apply_debug(
            params_view(parameters@),
            Seq::empty(),
            spec_base_pairs(token@, user@, message@),
            "po"@,
            0,
        );
    }
    build_request(token, user, message, &parameters, &gists)
}

/// Assembles the request for a push with the given priority and optional
/// title, device and sound. The caller form-encodes and submits the result.
pub fn send(
    token: &str,
    user: &str,
    message: &str,
    priority: i8,
    title: Option<&str>,
    device: Option<&str>,
    sound: Option<&str>,
) -> (r: Request)
    ensures
        pairs_view(r.pairs@) == spec_request_pairs(
            token@,
            user@,
            message@,
            spec_send_params(priority as int, title, device, sound, None, None, false),
            Seq::empty(),
        ),
        !r.debug,
{
    send_with_url(token, user, message, priority, title, device, sound, None, None)
}

/// Assembles the request for a push whose full body was offered to the
/// paste host: `gist_url` is the outcome of that upload, linked as the
/// supplementary URL when it succeeded and dropped when it failed. The
/// upload's filename title is the given title, or `"po"` when none is
/// given.
pub fn send_gist(
    token: &str,
    user: &str,
    message: &str,
    priority: i8,
    title: Option<&str>,
    device: Option<&str>,
    sound: Option<&str>,
    gist_url: Option<&str>,
) -> (r: Request)
    ensures
        pairs_view(r.pairs@) == spec_request_pairs(
            token@,
            user@,
            message@,
            spec_send_params(priority as int, title, device, sound, None, None, true),
            seq![
                match gist_url {
                    Some(u) => Some(u@),
                    None => None,
                },
            ],
        ),
        !r.debug,
{
    let parameters = send_params(priority, title, device, sound, None, None, true);
    let mut gists: Vec<Option<String>> = Vec::new();
    match gist_url {
        Some(u) => gists.push(Some(String::from_str(u))),
        None => gists.push(None),
    }
    proof {
        assert(opts_view(gists@) =~= seq![
            match gist_url {
                Some(u) => Some(u@),
                None => None,
            },
        ]);
        lemma_apply_debug(
            params_view(parameters@),
            opts_view(gists@),
            spec_base_pairs(token@, user@, message@),
            "po"@,
            0,
        );
    }
    build_request(token, user, message, &parameters, &gists)
}

/// Assembles a basic push request with just an API token, user key, and
/// message body.
pub fn send_basic(token: &str, user: &str, message: &str) -> (r: Request)
    ensures
        pairs_view(r.pairs@) == spec_base_pairs(token@, user@, message@),
        !r.debug,
{
    let parameters: Vec<Parameters> = Vec::new();
    let gists: Vec<Option<String>> = Vec::new();
    proof {
        assert(params_view(parameters@) =~= Seq::<ParamV>::empty());
        assert(opts_view(gists@) =~= Seq::<Option<Seq<char>>>::empty());
    }
    build_request(token, user, message, &parameters, &gists)
}

/// The command-line options that feed `parse_parameters`.
pub struct Options {
    pub priority: i8,
    pub title: Option<String>,
    pub device: Option<String>,
    pub sound: Option<String>,
    pub always_gist: bool,
    pub debug: bool,
}

/// The parameter list the options denote: the priority only when it is not
/// the neutral 0, then the title, device and sound when given, then the
/// paste-upload and debug flags.
pub open spec fn spec_cli_params(o: Options) -> Seq<ParamV> {
    (if o.priority != 0 {
        seq![ParamV::Priority(o.priority as int)]
    } else {
        Seq::empty()
    }) + (match o.title {
        Some(t) => seq![ParamV::Title(t@)],
        None => Seq::empty(),
    }) + (match o.device {
        Some(d) => seq![ParamV::Device(d@)],
        None => Seq::empty(),
    }) + (match o.sound {
        Some(snd) => seq![ParamV::Sound(snd@)],
        None => Seq::empty(),
    }) + (if o.always_gist {
        seq![ParamV::Gist]
    } else {
        Seq::empty()
    }) + (if o.debug {
        seq![ParamV::Debug]
    } else {
        Seq::empty()
    })
}

/// Consumes the command-line options and produces the parameter vector for
/// a push.
#[verifier::rlimit(60)]
pub fn parse_parameters(args: Options) -> (r: Vec<Parameters>)
    ensures
        params_view(r@) == spec_cli_params(args),
{
    let mut parameters: Vec<Parameters> = Vec::new();
    if args.priority != 0 {
        parameters.push(Parameters::Priority(args.priority));
    }
    match args.title {
        Some(t) => parameters.push(Parameters::Title(t)),
        None => {},
    }
    match args.device {
        Some(d) => parameters.push(Parameters::Device(d)),
        None => {},
    }
    match args.sound {
        Some(snd) => parameters.push(Parameters::Sound(snd)),
        None => {},
    }
    if args.always_gist {
        parameters.push(Parameters::Gist);
    }
    if args.debug {
        parameters.push(Parameters::Debug);
    }
    proof {
        assert(params_view(parameters@) =~= spec_cli_params(args));
    }
    parameters
}

/// Interprets a client-error body from the provider: the provider's error
/// list when the body parses with a status other than 1, and a generic
/// one-element error list otherwise.
fn api_error(response_body: &str) -> (r: Result<(), Vec<String>>)
    ensures
        spec_api_error(response_body@, r),
{
    match parse_messages(response_body) {
        Some((status, errors)) => {
            if status != 1 {
                Err(errors)
            } else {
                Err(general_api_error())
            }
        },
        None => Err(general_api_error()),
    }
}

/// The outcome `api_error` owes for a client-error body.
pub open spec fn spec_api_error(body: Seq<char>, r: Result<(), Vec<String>>) -> bool {
    match spec_parse_messages(body) {
        Some(p) => {
            if p.0 != 1 {
                r matches Err(v) && strs_view(v@) == p.1
            } else {
                r matches Err(v) && strs_view(v@) == seq!["general API error"@]
            }
        },
        None => r matches Err(v) && strs_view(v@) == seq!["general API error"@],
    }
}

fn general_api_error() -> (r: Vec<String>)
    ensures
        strs_view(r@) == seq!["general API error"@],
{
    let mut v: Vec<String> = Vec::new();
    v.push(String::from_str("general API error"));
    proof {
        assert(strs_view(v@) =~= seq!["general API error"@]);
    }
    v
}

/// Interprets the provider's response to a push: success exactly on 200;
/// on a status in 400..=499 the provider's reported errors (or a generic
/// error when the body is not the expected document or carries a success
/// status); any other status is reported with its code.
pub fn interpret_response(code: u32, body: &str) -> (r: Result<(), Vec<String>>)
    ensures
        code == 200 ==> r is Ok,
        400 <= code <= 499 ==> spec_api_error(body@, r),
        !(code == 200 || 400 <= code <= 499) ==> (r matches Err(v) && strs_view(v@) == seq![
            "API error "@ + spec_dec_nat(code as nat),
        ]),
{
    if code == 200 {
        Ok(())
    } else if 400 <= code && code <= 499 {
        api_error(body)
    } else {
        let mut msg = String::from_str("API error ");
        msg.append(u32_dec(code).as_str());
        let mut v: Vec<String> = Vec::new();
        v.push(msg);
        proof {
            assert(strs_view(v@) =~= seq!["API error "@ + spec_dec_nat(code as nat)]);
        }
        Err(v)
    }
}

/// The paste host's creation payload: one file, named by the title,
/// holding the full message.
pub open spec fn spec_gist_payload(message: Seq<char>, title: Seq<char>) -> Seq<char> {
    "{\"files\":{\""@ + spec_escape(title) + "\":{\"content\":\""@ + spec_escape(message)
        + "\"}}}"@
}

/// Serializes the paste payload for a message body and a filename title.
pub fn gist_payload(message: &str, title: &str) -> (r: String)
    ensures
        r@ == spec_gist_payload(message@, title@),
{
    let mut out = String::from_str("{\"files\":{\"");
    escape_onto(&mut out, title);
    out.append("\":{\"content\":\"");
    escape_onto(&mut out, message);
    out.append("\"}}}");
    proof {
        assert(out@ =~= spec_gist_payload(message@, title@));
    }
    out
}

/// Interprets the paste host's response: on a 200 or 201 whose body
/// carries the public URL, that URL; anything else is the single opaque
/// failure.
pub fn gist_response(code: u32, body: &str) -> (r: Result<String, (u32, String)>)
    ensures
        ((code == 200 || code == 201) && spec_html_url(body@) is Some) ==> (r matches Ok(u)
            && Some(u@) == spec_html_url(body@)),
        !((code == 200 || code == 201) && spec_html_url(body@) is Some) ==> (r matches Err(e)
            && e.0 == 0 && e.1@ == "Generic: Couldn't post to Gist."@),
{
    if code == 200 || code == 201 {
        match find_html_url(body) {
            Some(u) => {
                return Ok(u);
            },
            None => {},
        }
    }
    Err((0, String::from_str("Generic: Couldn't post to Gist.")))
}

/// What the form serializer of the `url` crate yields for a key/value
/// list: the pairs joined with `&` and `=`, keys and values
/// percent-encoded.
pub uninterp spec fn form_encoded(pairs: Seq<(Seq<char>, Seq<char>)>) -> Seq<char>;

/// Relies on `url::form_urlencoded::Serializer` (`extend_pairs` and
/// `finish`): the result is the `application/x-www-form-urlencoded`
/// serialization of the given pairs, a function of the pairs alone.
#[verifier::external_body]
fn form_urlencode(pairs: &Vec<(String, String)>) -> (r: String)
    ensures
        r@ == form_encoded(pairs_view(pairs@)),
{
    let mut ser = url::form_urlencoded::Serializer::new(String::new());
    ser.extend_pairs(pairs.iter());
    ser.finish()
}

impl Request {
    /// The form-encoded body to submit to the provider's message endpoint.
    pub fn encoded_body(&self) -> (r: String)
        ensures
            r@ == form_encoded(pairs_view(self.pairs@)),
    {
        form_urlencode(&self.pairs)
    }
}

/// Parameters passed without a priority of zero keep the debug flag off;
/// more generally, assembly turns the flag on exactly when a debug
/// parameter occurs.
proof fn lemma_apply_debug(
    ps: Seq<ParamV>,
    gists: Seq<Option<Seq<char>>>,
    pairs: Seq<(Seq<char>, Seq<char>)>,
    title: Seq<char>,
    g: int,
)
    requires
        forall|i: int| 0 <= i < ps.len() ==> !(ps[i] is Debug),
    ensures
        !spec_apply_params(ps, gists, pairs, title, false, g).1,
    decreases ps.len(),
{
    if ps.len() > 0 {
        let rest = ps.drop_first();
        assert(forall|i: int| 0 <= i < rest.len() ==> rest[i] == ps[i + 1]);
        match ps[0] {
            ParamV::Priority(p) => lemma_apply_debug(
                rest,
                gists,
                if p == 0 {
                    pairs
                } else {
                    pairs.push(("priority"@, spec_dec_int(p)))
                },
                title,
                g,
            ),
            ParamV::Title(t) => lemma_apply_debug(rest, gists, pairs.push(("title"@, t)), t, g),
            ParamV::Device(d) => lemma_apply_debug(rest, gists, pairs.push(("device"@, d)), title, g),
            ParamV::Sound(snd) => lemma_apply_debug(
                rest,
                gists,
                pairs.push(("sound"@, snd)),
                title,
                g,
            ),
            ParamV::Url(u) => lemma_apply_debug(rest, gists, pairs.push(("url"@, u)), title, g),
            ParamV::UrlTitle(ut) => lemma_apply_debug(
                rest,
                gists,
                pairs.push(("url_title"@, ut)),
                title,
                g,
            ),
            ParamV::Gist => {
                let outcome = if 0 <= g < gists.len() {
                    gists[g]
                } else {
                    None
                };
                lemma_apply_debug(
                    rest,
                    gists,
                    match outcome {
                        Some(u) => pairs.push(("url"@, u)).push(
                            ("url_title"@, "Full Output (GitHub Gist)"@),
                        ),
                        None => pairs,
                    },
                    title,
                    g + 1,
                )
            },
            ParamV::Debug => {
                assert(ps[0] is Debug);
            },
        }
    }
}

/// `a` is an unchanged initial segment of `b`.
spec fn spec_prefix_of(a: Seq<(Seq<char>, Seq<char>)>, b: Seq<(Seq<char>, Seq<char>)>) -> bool {
    a.len() <= b.len() && forall|j: int| 0 <= j < a.len() ==> a[j] == #[trigger] b[j]
}

proof fn lemma_prefix_push(a: Seq<(Seq<char>, Seq<char>)>, x: (Seq<char>, Seq<char>))
    ensures
        spec_prefix_of(a, a.push(x)),
{
    assert forall|j: int| 0 <= j < a.len() implies a[j] == #[trigger] a.push(x)[j] by {
        assert(a.push(x)[j] == a[j]);
    }
}

proof fn lemma_prefix_trans(
    a: Seq<(Seq<char>, Seq<char>)>,
    b: Seq<(Seq<char>, Seq<char>)>,
    c: Seq<(Seq<char>, Seq<char>)>,
)
    requires
        spec_prefix_of(a, b),
        spec_prefix_of(b, c),
    ensures
        spec_prefix_of(a, c),
{
    assert forall|j: int| 0 <= j < a.len() implies a[j] == #[trigger] c[j] by {
        assert(a[j] == b[j]);
        assert(b[j] == c[j]);
    }
}

/// Assembly only appends: whatever fields are passed in stay unchanged, in
/// place, in the result.
proof fn lemma_apply_prefix(
    ps: Seq<ParamV>,
    gists: Seq<Option<Seq<char>>>,
    pairs: Seq<(Seq<char>, Seq<char>)>,
    title: Seq<char>,
    debug: bool,
    g: int,
)
    ensures
        spec_prefix_of(pairs, spec_apply_params(ps, gists, pairs, title, debug, g).0),
    decreases ps.len(),
{
    let res = spec_apply_params(ps, gists, pairs, title, debug, g).0;
    if ps.len() == 0 {
    } else {
        let rest = ps.drop_first();
        match ps[0] {
            ParamV::Priority(p) => {
                if p == 0 {
                    lemma_apply_prefix(rest, gists, pairs, title, debug, g);
                } else {
                    let p2 = pairs.push(("priority"@, spec_dec_int(p)));
                    lemma_prefix_push(pairs, ("priority"@, spec_dec_int(p)));
                    lemma_apply_prefix(rest, gists, p2, title, debug, g);
                    lemma_prefix_trans(pairs, p2, res);
                }
            },
            ParamV::Title(t) => {
                let p2 = pairs.push(("title"@, t));
                lemma_prefix_push(pairs, ("title"@, t));
                lemma_apply_prefix(rest, gists, p2, t, debug, g);
                lemma_prefix_trans(pairs, p2, res);
            },
            ParamV::Device(d) => {
                let p2 = pairs.push(("device"@, d));
                lemma_prefix_push(pairs, ("device"@, d));
                lemma_apply_prefix(rest, gists, p2, title, debug, g);
                lemma_prefix_trans(pairs, p2, res);
            },
            ParamV::Sound(snd) => {
                let p2 = pairs.push(("sound"@, snd));
                lemma_prefix_push(pairs, ("sound"@, snd));
                lemma_apply_prefix(rest, gists, p2, title, debug, g);
                lemma_prefix_trans(pairs, p2, res);
            },
            ParamV::Url(u) => {
                let p2 = pairs.push(("url"@, u));
                lemma_prefix_push(pairs, ("url"@, u));
                lemma_apply_prefix(rest, gists, p2, title, debug, g);
                lemma_prefix_trans(pairs, p2, res);
            },
            ParamV::UrlTitle(ut) => {
                let p2 = pairs.push(("url_title"@, ut));
                lemma_prefix_push(pairs, ("url_title"@, ut));
                lemma_apply_prefix(rest, gists, p2, title, debug, g);
                lemma_prefix_trans(pairs, p2, res);
            },
            ParamV::Gist => {
                let outcome = if 0 <= g < gists.len() {
                    gists[g]
                } else {
                    None
                };
                match outcome {
                    Some(u) => {
                        let p1 = pairs.push(("url"@, u));
                        let p2 = p1.push(("url_title"@, "Full Output (GitHub Gist)"@));
                        lemma_prefix_push(pairs, ("url"@, u));
                        lemma_prefix_push(p1, ("url_title"@, "Full Output (GitHub Gist)"@));
                        lemma_prefix_trans(pairs, p1, p2);
                        lemma_apply_prefix(rest, gists, p2, title, debug, g + 1);
                        lemma_prefix_trans(pairs, p2, res);
                    },
                    None => {
                        lemma_apply_prefix(rest, gists, pairs, title, debug, g + 1);
                    },
                }
            },
            ParamV::Debug => {
                lemma_apply_prefix(rest, gists, pairs, title, true, g);
            },
        }
    }
}

/// The wire message never exceeds 1024 characters, and a message within
/// the limit goes out unmodified.
pub proof fn lemma_truncation(s: Seq<char>)
    ensures
        spec_truncate(s).len() <= 1024,
        s.len() <= 1024 ==> spec_truncate(s) == s,
{
}

/// Every request carries the wire message as its third field: the message
/// capped at 1024 characters, whatever the parameters and upload outcomes.
pub proof fn lemma_message_field(
    token: Seq<char>,
    user: Seq<char>,
    message: Seq<char>,
    ps: Seq<ParamV>,
    gists: Seq<Option<Seq<char>>>,
)
    ensures
        spec_request_pairs(token, user, message, ps, gists).len() >= 3,
        spec_request_pairs(token, user, message, ps, gists)[2] == (
            "message"@,
            spec_truncate(message),
        ),
        spec_request_pairs(token, user, message, ps, gists)[2].1.len() <= 1024,
{
    let base = spec_base_pairs(token, user, message);
    lemma_apply_prefix(ps, gists, base, "po"@, false, 0);
    let r = spec_request_pairs(token, user, message, ps, gists);
    assert(r[2] == base[2]);
}

/// No field of the list is named `priority`.
pub open spec fn spec_no_priority_key(pairs: Seq<(Seq<char>, Seq<char>)>) -> bool {
    forall|j: int| 0 <= j < pairs.len() ==> (#[trigger] pairs[j]).0 != "priority"@
}

proof fn lemma_push_no_priority(pairs: Seq<(Seq<char>, Seq<char>)>, x: (Seq<char>, Seq<char>))
    requires
        spec_no_priority_key(pairs),
        x.0 != "priority"@,
    ensures
        spec_no_priority_key(pairs.push(x)),
{
    assert forall|j: int| 0 <= j < pairs.push(x).len() implies (#[trigger] pairs.push(x)[j]).0
        != "priority"@ by {
        if j < pairs.len() {
            assert(pairs.push(x)[j] == pairs[j]);
        } else {
            assert(pairs.push(x)[j] == x);
        }
    }
}

proof fn lemma_apply_no_priority(
    ps: Seq<ParamV>,
    gists: Seq<Option<Seq<char>>>,
    pairs: Seq<(Seq<char>, Seq<char>)>,
    title: Seq<char>,
    debug: bool,
    g: int,
)
    requires
        forall|i: int|
            0 <= i < ps.len() ==> !((#[trigger] ps[i]) matches ParamV::Priority(p) && p != 0),
        spec_no_priority_key(pairs),
    ensures
        spec_no_priority_key(spec_apply_params(ps, gists, pairs, title, debug, g).0),
    decreases ps.len(),
{
    reveal_strlit("priority");
    reveal_strlit("title");
    reveal_strlit("device");
    reveal_strlit("sound");
    reveal_strlit("url");
    reveal_strlit("url_title");
    assert("priority"@.len() == 8);
    assert("title"@.len() == 5);
    assert("device"@.len() == 6);
    assert("sound"@.len() == 5);
    assert("url"@.len() == 3);
    assert("url_title"@.len() == 9);
    if ps.len() > 0 {
        let rest = ps.drop_first();
        assert(forall|i: int| 0 <= i < rest.len() ==> rest[i] == ps[i + 1]);
        match ps[0] {
            ParamV::Priority(p) => {
                assert(p == 0);
                lemma_apply_no_priority(rest, gists, pairs, title, debug, g);
            },
            ParamV::Title(t) => {
                lemma_push_no_priority(pairs, ("title"@, t));
                lemma_apply_no_priority(rest, gists, pairs.push(("title"@, t)), t, debug, g);
            },
            ParamV::Device(d) => {
                lemma_push_no_priority(pairs, ("device"@, d));
                lemma_apply_no_priority(rest, gists, pairs.push(("device"@, d)), title, debug, g);
            },
            ParamV::Sound(snd) => {
                lemma_push_no_priority(pairs, ("sound"@, snd));
                lemma_apply_no_priority(
                    rest,
                    gists,
                    pairs.push(("sound"@, snd)),
                    title,
                    debug,
                    g,
                );
            },
            ParamV::Url(u) => {
                lemma_push_no_priority(pairs, ("url"@, u));
                lemma_apply_no_priority(rest, gists, pairs.push(("url"@, u)), title, debug, g);
            },
            ParamV::UrlTitle(ut) => {
                lemma_push_no_priority(pairs, ("url_title"@, ut));
                lemma_apply_no_priority(
                    rest,
                    gists,
                    pairs.push(("url_title"@, ut)),
                    title,
                    debug,
                    g,
                );
            },
            ParamV::Gist => {
                let outcome = if 0 <= g < gists.len() {
                    gists[g]
                } else {
                    None
                };
                match outcome {
                    Some(u) => {
                        reveal_strlit("Full Output (GitHub Gist)");
                        assert("Full Output (GitHub Gist)"@.len() == 25);
                        lemma_push_no_priority(pairs, ("url"@, u));
                        lemma_push_no_priority(
                            pairs.push(("url"@, u)),
                            ("url_title"@, "Full Output (GitHub Gist)"@),
                        );
                    },
                    None => {},
                }
                lemma_apply_no_priority(
                    rest,
                    gists,
                    match outcome {
                        Some(u) => pairs.push(("url"@, u)).push(
                            ("url_title"@, "Full Output (GitHub Gist)"@),
                        ),
                        None => pairs,
                    },
                    title,
                    debug,
                    g + 1,
                );
            },
            ParamV::Debug => {
                lemma_apply_no_priority(rest, gists, pairs, title, true, g);
            },
        }
    }
}

/// A push whose parameters carry no priority, or only the neutral priority
/// 0, produces a request without a `priority` field.
pub proof fn lemma_priority_omitted(
    token: Seq<char>,
    user: Seq<char>,
    message: Seq<char>,
    ps: Seq<ParamV>,
    gists: Seq<Option<Seq<char>>>,
)
    requires
        forall|i: int|
            0 <= i < ps.len() ==> !((#[trigger] ps[i]) matches ParamV::Priority(p) && p != 0),
    ensures
        spec_no_priority_key(spec_request_pairs(token, user, message, ps, gists)),
{
    reveal_strlit("priority");
    reveal_strlit("token");
    reveal_strlit("user");
    reveal_strlit("message");
    assert("priority"@.len() == 8);
    assert("token"@.len() == 5);
    assert("user"@.len() == 4);
    assert("message"@.len() == 7);
    assert(spec_no_priority_key(spec_base_pairs(token, user, message)));
    lemma_apply_no_priority(
        ps,
        gists,
        spec_base_pairs(token, user, message),
        "po"@,
        false,
        0,
    );
}

proof fn lemma_apply_gists_failed(
    ps: Seq<ParamV>,
    gists: Seq<Option<Seq<char>>>,
    pairs: Seq<(Seq<char>, Seq<char>)>,
    title: Seq<char>,
    debug: bool,
    g: int,
)
    requires
        forall|i: int| 0 <= i < gists.len() ==> gists[i] is None,
    ensures
        spec_apply_params(ps, gists, pairs, title, debug, g) == spec_apply_params(
            ps,
            Seq::empty(),
            pairs,
            title,
            debug,
            g,
        ),
    decreases ps.len(),
{
    if ps.len() > 0 {
        let rest = ps.drop_first();
        match ps[0] {
            ParamV::Priority(p) => {
                lemma_apply_gists_failed(
                    rest,
                    gists,
                    if p == 0 {
                        pairs
                    } else {
                        pairs.push(("priority"@, spec_dec_int(p)))
                    },
                    title,
                    debug,
                    g,
                );
            },
            ParamV::Title(t) => {
                lemma_apply_gists_failed(rest, gists, pairs.push(("title"@, t)), t, debug, g);
            },
            ParamV::Device(d) => {
                lemma_apply_gists_failed(rest, gists, pairs.push(("device"@, d)), title, debug, g);
            },
            ParamV::Sound(snd) => {
                lemma_apply_gists_failed(
                    rest,
                    gists,
                    pairs.push(("sound"@, snd)),
                    title,
                    debug,
                    g,
                );
            },
            ParamV::Url(u) => {
                lemma_apply_gists_failed(rest, gists, pairs.push(("url"@, u)), title, debug, g);
            },
            ParamV::UrlTitle(ut) => {
                lemma_apply_gists_failed(
                    rest,
                    gists,
                    pairs.push(("url_title"@, ut)),
                    title,
                    debug,
                    g,
                );
            },
            ParamV::Gist => {
                lemma_apply_gists_failed(rest, gists, pairs, title, debug, g + 1);
            },
            ParamV::Debug => {
                lemma_apply_gists_failed(rest, gists, pairs, title, true, g);
            },
        }
    }
}

/// A failed paste upload is non-fatal and adds nothing: when every upload
/// outcome failed, the request is exactly the one assembled with no
/// outcomes at all, so the push still goes out, without the supplementary
/// URL fields.
pub proof fn lemma_gist_failure_nonfatal(
    token: Seq<char>,
    user: Seq<char>,
    message: Seq<char>,
    ps: Seq<ParamV>,
    gists: Seq<Option<Seq<char>>>,
)
    requires
        forall|i: int| 0 <= i < gists.len() ==> gists[i] is None,
    ensures
        spec_request_pairs(token, user, message, ps, gists) == spec_request_pairs(
            token,
            user,
            message,
            ps,
            Seq::empty(),
        ),
{
    lemma_apply_gists_failed(
        ps,
        gists,
        spec_base_pairs(token, user, message),
        "po"@,
        false,
        0,
    );
}

} // verus!
