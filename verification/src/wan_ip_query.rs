//! The WAN-address resolver's compute side: loading and validating the
//! endpoint list, the built-in default endpoints, and the errors a resolve
//! can end with. Fetching each endpoint and reading the list file happen
//! outside the library.

use vstd::prelude::*;
use vstd::string::*;
use vstd::seq_lib::group_seq_properties;
use crate::text::{spec_split, split_char};

verus! {

broadcast use group_seq_properties;

/// How resolving the WAN address failed.
#[derive(Debug)]
pub enum WanIpError {
    /// A file-system failure while handling the endpoint list, in words.
    Io(String),
    /// Every configured endpoint failed; the words of the last failure.
    QueryFailed(String),
    /// A configured line is not a well-formed URL; carries the line.
    UrlParse(String),
    /// The endpoint list is empty.
    NoApiEndpointsConfigured,
}

/// Does `url::Url::parse` accept `s`? The outcome is a function of the
/// characters alone.
pub uninterp spec fn url_parse_ok(s: Seq<char>) -> bool;

/// Relies on `url::Url::parse`: whether `s` is a well-formed absolute URL.
#[verifier::external_body]
fn url_ok(s: &str) -> (r: bool)
    ensures
        r == url_parse_ok(s@),
{
    url::Url::parse(s).is_ok()
}

/// The built-in list of address-echo services, used when no list file exists.
pub fn default_api_urls() -> (r: Vec<String>)
    ensures
        r@.len() == 2,
        r@[0]@ == "https://api.seeip.org"@,
        r@[1]@ == "https://api64.ipify.org"@,
{
    let mut v: Vec<String> = Vec::new();
    v.push(String::from_str("https://api.seeip.org"));
    v.push(String::from_str("https://api64.ipify.org"));
    v
}

/// What a fresh endpoint list file holds: the default URLs, one per line.
pub fn default_api_file_text() -> (r: String)
    ensures
        r@ == "https://api.seeip.org"@ + seq!['\n'] + "https://api64.ipify.org"@ + seq!['\n'],
{
    let mut r = String::from_str("https://api.seeip.org");
    r.append("\n");
    r.append("https://api64.ipify.org");
    r.append("\n");
    proof {
        reveal_strlit("\n");
        assert(r@ =~= "https://api.seeip.org"@ + seq!['\n'] + "https://api64.ipify.org"@
            + seq!['\n']);
    }
    r
}

/// Keeps a line exactly when it is not empty.
pub open spec fn spec_nonempty_pred() -> spec_fn(Seq<char>) -> bool {
    |l: Seq<char>| l.len() != 0
}

/// The non-empty lines of the endpoint list file.
pub open spec fn spec_nonempty_lines(contents: Seq<char>) -> Seq<Seq<char>> {
    spec_split(contents, '\n').filter(spec_nonempty_pred())
}

/// Every non-empty line is a well-formed URL.
pub open spec fn spec_all_lines_ok(contents: Seq<char>) -> bool {
    forall|i: int| 0 <= i < spec_nonempty_lines(contents).len() ==> url_parse_ok(
        #[trigger] spec_nonempty_lines(contents)[i],
    )
}

/// The endpoint list. `file_contents` is the text of the list file, or
/// `None` when the file does not exist — then the built-in defaults stand in
/// (the caller creates the file). Every URL, default or configured, is
/// validated; the first ill-formed one is the error.
pub fn load_api_urls(file_contents: Option<&str>) -> (r: Result<Vec<String>, WanIpError>)
    ensures
        match file_contents {
            Option::None => {
                if url_parse_ok("https://api.seeip.org"@) && url_parse_ok(
                    "https://api64.ipify.org"@,
                ) {
                    r matches Ok(v) && v@.len() == 2 && v@[0]@ == "https://api.seeip.org"@
                        && v@[1]@ == "https://api64.ipify.org"@
                } else {
                    r matches Err(e) && e matches WanIpError::UrlParse(u) && (
                    if url_parse_ok("https://api.seeip.org"@) {
                        u@ == "https://api64.ipify.org"@
                    } else {
                        u@ == "https://api.seeip.org"@
                    })
                }
            },
            Option::Some(c) => {
                if spec_all_lines_ok(c@) {
                    r matches Ok(v) && v@.map_values(|t: String| t@) == spec_nonempty_lines(c@)
                } else {
                    r matches Err(e) && e matches WanIpError::UrlParse(u) && exists|i: int|
                        0 <= i < spec_nonempty_lines(c@).len() && !url_parse_ok(
                            #[trigger] spec_nonempty_lines(c@)[i],
                        ) && (forall|j: int|
                            0 <= j < i ==> url_parse_ok(#[trigger] spec_nonempty_lines(c@)[j]))
                        && u@ == spec_nonempty_lines(c@)[i]
                }
            },
        },
{
    match file_contents {
        None => {
            let defaults = default_api_urls();
            let first = &defaults[0];
            if !url_ok(first.as_str()) {
                return Err(WanIpError::UrlParse(first.clone()));
            }
            let second = &defaults[1];
            if !url_ok(second.as_str()) {
                return Err(WanIpError::UrlParse(second.clone()));
            }
            Ok(defaults)
        },
        Some(c) => {
            let pieces = split_char(c, '\n');
            let n = pieces.len();
            proof {
                assert(pieces@.map_values(|t: String| t@) == spec_split(c@, '\n'));
            }
            let mut out: Vec<String> = Vec::new();
            let mut i: usize = 0;
            while i < n
                invariant
                    file_contents == Option::Some(c),
                    i <= n,
                    n == pieces@.len(),
                    pieces@.map_values(|t: String| t@) == spec_split(c@, '\n'),
                    out@.map_values(|t: String| t@) == spec_split(c@, '\n').subrange(
                        0,
                        i as int,
                    ).filter(spec_nonempty_pred()),
                    forall|j: int| 0 <= j < out@.len() ==> url_parse_ok((#[trigger] out@[j])@),
                decreases n - i,
            {
                let piece = &pieces[i];
                let ghost vs = spec_split(c@, '\n');
                proof {
                    assert(vs[i as int] == pieces@[i as int]@);
                    assert(vs.subrange(0, i + 1).drop_last() =~= vs.subrange(0, i as int));
                    assert(vs.subrange(0, i + 1).last() == vs[i as int]);
                }
                if piece.as_str().unicode_len() != 0 {
                    if url_ok(piece.as_str()) {
                        out.push(piece.clone());
                        proof {
                            reveal(Seq::filter);
                            let f = spec_nonempty_pred();
                            assert(f(vs[i as int]));
                            assert(vs.subrange(0, i + 1).filter(f) =~= vs.subrange(
                                0,
                                i as int,
                            ).filter(f).push(vs[i as int]));
                            assert(out@.map_values(|t: String| t@) =~= out@.drop_last().map_values(
                                |t: String| t@,
                            ).push(pieces@[i as int]@));
                        }
                    } else {
                        proof {
                            reveal_with_fuel(Seq::filter, 2);
                            let f = spec_nonempty_pred();
                            assert(f(vs[i as int]));
                            let lines = spec_nonempty_lines(c@);
                            let k = out@.len() as int;
                            assert(vs =~= vs.subrange(0, i as int) + vs.subrange(
                                i as int,
                                n as int,
                            ));
                            Seq::<Seq<char>>::filter_distributes_over_add(
                                vs.subrange(0, i as int),
                                vs.subrange(i as int, n as int),
                                f,
                            );
                            let back = vs.subrange(i as int, n as int);
                            assert(back =~= seq![vs[i as int]] + back.drop_first());
                            Seq::<Seq<char>>::filter_distributes_over_add(
                                seq![vs[i as int]],
                                back.drop_first(),
                                f,
                            );
                            assert(seq![vs[i as int]].drop_last() =~= Seq::<Seq<char>>::empty());
                            assert(Seq::<Seq<char>>::empty().filter(f) =~= Seq::<Seq<char>>::empty());
                            assert(seq![vs[i as int]].filter(f) =~= seq![vs[i as int]]);
                            assert(lines[k] == vs[i as int]);
                            assert(forall|j: int| 0 <= j < k ==> #[trigger] lines[j]
                                == out@.map_values(|t: String| t@)[j]);
                            assert(forall|j: int| 0 <= j < k ==> url_parse_ok(
                                #[trigger] lines[j],
                            ));
                            assert(0 <= k < lines.len());
                            assert(!url_parse_ok(lines[k]));
                            assert(piece@ == lines[k]);
                            assert(!spec_all_lines_ok(c@));
                        }
                        return Err(WanIpError::UrlParse(piece.clone()));
                    }
                } else {
                    proof {
                        reveal(Seq::filter);
                        let f = spec_nonempty_pred();
                        assert(!f(vs[i as int]));
                        assert(vs.subrange(0, i + 1).filter(f) =~= vs.subrange(0, i as int).filter(
                            f,
                        ));
                    }
                }
                i += 1;
            }
            proof {
                assert(spec_split(c@, '\n').subrange(0, n as int) =~= spec_split(c@, '\n'));
                let lines = spec_nonempty_lines(c@);
                assert(forall|j: int| 0 <= j < lines.len() ==> #[trigger] lines[j] == out@[j]@);
            }
            Ok(out)
        },
    }
}

/// The check that a resolve begins with: with no endpoint at all it cannot
/// proceed.
pub fn check_endpoints_present(urls: &Vec<String>) -> (r: Result<(), WanIpError>)
    ensures
        r is Ok <==> urls@.len() > 0,
        r is Err ==> r == Result::<(), WanIpError>::Err(WanIpError::NoApiEndpointsConfigured),
{
    if urls.len() == 0 {
        Err(WanIpError::NoApiEndpointsConfigured)
    } else {
        Ok(())
    }
}

/// The error a resolve ends with once every endpoint has failed: the last
/// failure's words, or a fixed message if none were recorded.
pub fn query_failure(last_error: Option<String>) -> (r: WanIpError)
    ensures
        r matches WanIpError::QueryFailed(m) && (match last_error {
            Option::Some(e) => m@ == e@,
            Option::None => m@ == "Failed to query WAN IP"@,
        }),
{
    match last_error {
        Some(e) => WanIpError::QueryFailed(e),
        None => WanIpError::QueryFailed(String::from_str("Failed to query WAN IP")),
    }
}

} // verus!
