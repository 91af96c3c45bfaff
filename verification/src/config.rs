//! The credential store: validation of the API token and user key, and the
//! JSON document that persists them.
//!
//! File I/O lives with the caller; this module turns credentials into the
//! exact text that is written to disk and parses that text back.

use vstd::prelude::*;

verus! {

use crate::json::{
    escape_onto,
    lemma_escape_plain,
    lemma_escape_round_trip,
    obj_scan,
    parse_str_body,
    skip_ws_at,
    spec_assoc,
    spec_escape,
    spec_obj_items,
    spec_skip_ws,
    spec_str_body,
    spec_value_end,
};
use crate::spec_is_alnum;

/// Why reading the credential file failed.
#[derive(Debug, PartialEq)]
pub enum ReadError {
    /// The file does not exist; the caller should suggest running setup.
    NoConfig,
    /// The file exists but does not hold the two-field credential document.
    JsonError,
    /// The file could not be read; carries the I/O error's description.
    FileError(String),
    /// The stored API token fails the token-format rule.
    InvalidApiToken(String),
    /// The stored user key fails the token-format rule.
    InvalidUserKey(String),
}

/// Why writing the credential file failed.
#[derive(Debug, PartialEq)]
pub enum WriteError {
    /// The API token fails the token-format rule.
    InvalidApiToken(String),
    /// The user key fails the token-format rule.
    InvalidUserKey(String),
    /// The file could not be created or written; carries the I/O error's
    /// description.
    FileError(String),
}

/// The token-format rule: exactly 30 characters, at least one of them
/// alphanumeric.
pub open spec fn spec_valid_token(s: Seq<char>) -> bool {
    s.len() == 30 && (exists|i: int| 0 <= i < s.len() && spec_is_alnum(s[i]))
}

/// Checks a credential string against the token-format rule: length exactly
/// 30, containing at least one character in `[A-Za-z0-9]`.
pub fn valid_token(token: &str) -> (r: bool)
    ensures
        r == spec_valid_token(token@),
{
    let n = token.unicode_len();
    if n != 30 {
        return false;
    }
    let mut i: usize = 0;
    while i < n
        invariant
            n == token@.len(),
            n == 30,
            0 <= i <= n,
            forall|k: int| 0 <= k < i ==> !spec_is_alnum(token@[k]),
        decreases n - i,
    {
        let c = token.get_char(i);
        let u = c as u32;
        if (48 <= u && u <= 57) || (65 <= u && u <= 90) || (97 <= u && u <= 122) {
            assert(spec_is_alnum(token@[i as int]));
            return true;
        }
        i = i + 1;
    }
    false
}

/// The credential document as it is written to disk: a compact JSON object
/// with the two fields `token` and `user`, in that order.
pub open spec fn spec_config_doc(t: Seq<char>, u: Seq<char>) -> Seq<char> {
    "{\"token\":\""@ + spec_escape(t) + "\",\"user\":\""@ + spec_escape(u) + "\"}"@
}

/// Serializes the two credentials as the credential document.
pub fn config_doc(token: &str, user: &str) -> (r: String)
    ensures
        r@ == spec_config_doc(token@, user@),
{
    let mut out = String::from_str("{\"token\":\"");
    escape_onto(&mut out, token);
    out.append("\",\"user\":\"");
    escape_onto(&mut out, user);
    out.append("\"}");
    proof {
        assert(out@ =~= spec_config_doc(token@, user@));
    }
    out
}

/// Validates both credentials and, if they pass, yields the document text to
/// be written. The token is checked before the user key, so when both are
/// invalid only the token is reported.
pub fn encode_config(token: &str, user: &str) -> (r: Result<String, WriteError>)
    ensures
        !spec_valid_token(token@) ==> (r matches Err(e) && e matches WriteError::InvalidApiToken(s)
            && s@ == token@),
        spec_valid_token(token@) && !spec_valid_token(user@) ==> (r matches Err(e)
            && e matches WriteError::InvalidUserKey(s) && s@ == user@),
        spec_valid_token(token@) && spec_valid_token(user@) ==> (r matches Ok(s) && s@
            == spec_config_doc(token@, user@)),
{
    if !valid_token(token) {
        Err(WriteError::InvalidApiToken(String::from_str(token)))
    } else if !valid_token(user) {
        Err(WriteError::InvalidUserKey(String::from_str(user)))
    } else {
        Ok(config_doc(token, user))
    }
}

/// What parsing the credential document yields: the text is a JSON
/// object whose `token` and `user` fields hold strings. Blanks, field
/// order and unknown fields are accepted; unknown field values are
/// passed over by structure.
pub open spec fn spec_parse_config(s: Seq<char>) -> Option<(Seq<char>, Seq<char>)> {
    let a = spec_skip_ws(s, 0);
    if a < s.len() && s[a] == '{' {
        match spec_obj_items(s, a + 1) {
            None => None,
            Some(p) => {
                if spec_skip_ws(s, p.1) == s.len() {
                    match (spec_assoc(p.0, "token"@), spec_assoc(p.0, "user"@)) {
                        (Some(vt), Some(vu)) => {
                            if 0 <= vt < s.len() && s[vt] == '"' && 0 <= vu < s.len() && s[vu]
                                == '"' {
                                match (spec_str_body(s.skip(vt + 1)), spec_str_body(
                                    s.skip(vu + 1),
                                )) {
                                    (Some(pt), Some(pu)) => Some((pt.0, pu.0)),
                                    _ => None,
                                }
                            } else {
                                None
                            }
                        },
                        _ => None,
                    }
                } else {
                    None
                }
            },
        }
    } else {
        None
    }
}

/// Parses the credential document back into the token and the user key.
/// Fails with `JsonError` exactly on text that `spec_parse_config` rejects.
pub fn parse_config(s: &str) -> (r: Result<(String, String), ReadError>)
    ensures
        r matches Ok(p) ==> spec_parse_config(s@) == Some((p.0@, p.1@)),
        r matches Err(e) ==> e is JsonError && spec_parse_config(s@) is None,
{
    let n = s.unicode_len();
    let a = skip_ws_at(s, 0);
    if a >= n {
        return Err(ReadError::JsonError);
    }
    if s.get_char(a) != '{' {
        return Err(ReadError::JsonError);
    }
    match obj_scan(s, a + 1, "token") {
        None => Err(ReadError::JsonError),
        Some((vt_opt, end)) => {
            if skip_ws_at(s, end) != n {
                return Err(ReadError::JsonError);
            }
            let vt = match vt_opt {
                Some(v) => v,
                None => {
                    return Err(ReadError::JsonError);
                },
            };
            match obj_scan(s, a + 1, "user") {
                None => Err(ReadError::JsonError),
                Some((vu_opt, _end2)) => {
                    let vu = match vu_opt {
                        Some(v) => v,
                        None => {
                            return Err(ReadError::JsonError);
                        },
                    };
                    if s.get_char(vt) != '"' || s.get_char(vu) != '"' {
                        return Err(ReadError::JsonError);
                    }
                    match (parse_str_body(s, vt + 1), parse_str_body(s, vu + 1)) {
                        (Some((tok, _a1)), Some((usr, _a2))) => Ok((tok, usr)),
                        _ => Err(ReadError::JsonError),
                    }
                },
            }
        },
    }
}

/// Reading gives back exactly what writing stored: parsing the document
/// written for any token and user key yields that token and user key.
#[verifier::rlimit(80)]
pub proof fn lemma_config_round_trip(t: Seq<char>, u: Seq<char>)
    ensures
        spec_parse_config(spec_config_doc(t, u)) == Some((t, u)),
{
    reveal_strlit("{\"token\":\"");
    reveal_strlit("\",\"user\":\"");
    reveal_strlit("\"}");
    reveal_strlit("token");
    reveal_strlit("user");
    let lit1 = "{\"token\":\""@;
    let mid = "\",\"user\":\""@;
    let tail = "\"}"@;
    let kt = "token"@;
    let ku = "user"@;
    let et = spec_escape(t);
    let eu = spec_escape(u);
    let lt = et.len() as int;
    let lu = eu.len() as int;
    let d = spec_config_doc(t, u);
    assert(lit1.len() == 10);
    assert(mid.len() == 10);
    assert(tail.len() == 2);
    assert(kt.len() == 5);
    assert(ku.len() == 4);
    assert(d.len() == 22 + lt + lu);
    assert(kt =~= seq!['t', 'o', 'k', 'e', 'n']);
    assert(ku =~= seq!['u', 's', 'e', 'r']);
    assert(forall|i: int|
        0 <= i < kt.len() ==> kt[i] != '"' && kt[i] != '\\' && (kt[i] as u32) >= 32);
    assert(forall|i: int|
        0 <= i < ku.len() ==> ku[i] != '"' && ku[i] != '\\' && (ku[i] as u32) >= 32);
    assert(d[0] == '{');
    assert(d[1] == '"');
    assert(d[8] == ':');
    assert(d[9] == '"');
    assert(d[11 + lt] == ',');
    assert(d[12 + lt] == '"');
    assert(d[18 + lt] == ':');
    assert(d[19 + lt] == '"');
    assert(d[21 + lt + lu] == '}');
    assert(spec_skip_ws(d, 0) == 0);
    assert(spec_skip_ws(d, 1) == 1);
    assert(spec_skip_ws(d, 8) == 8);
    assert(spec_skip_ws(d, 9) == 9);
    assert(spec_skip_ws(d, 11 + lt) == 11 + lt);
    assert(spec_skip_ws(d, 12 + lt) == 12 + lt);
    assert(spec_skip_ws(d, 18 + lt) == 18 + lt);
    assert(spec_skip_ws(d, 19 + lt) == 19 + lt);
    assert(spec_skip_ws(d, 21 + lt + lu) == 21 + lt + lu);
    assert(spec_skip_ws(d, 22 + lt + lu) == 22 + lt + lu);
    // the first field: key "token", value the stored token string
    lemma_escape_plain(kt);
    assert(d.skip(2) =~= spec_escape(kt) + seq!['"'] + d.skip(8));
    lemma_escape_round_trip(kt, d.skip(8));
    assert(spec_str_body(d.skip(2)) == Some((kt, d.skip(8))));
    assert(d.skip(10) =~= et + seq!['"'] + d.skip(11 + lt));
    lemma_escape_round_trip(t, d.skip(11 + lt));
    assert(spec_str_body(d.skip(10)) == Some((t, d.skip(11 + lt))));
    assert(spec_value_end(d, 9, 0) == Some(11 + lt));
    // the second field: key "user", value the stored user string
    lemma_escape_plain(ku);
    assert(d.skip(13 + lt) =~= spec_escape(ku) + seq!['"'] + d.skip(18 + lt));
    lemma_escape_round_trip(ku, d.skip(18 + lt));
    assert(spec_str_body(d.skip(13 + lt)) == Some((ku, d.skip(18 + lt))));
    assert(d.skip(20 + lt) =~= eu + seq!['"'] + seq!['}']);
    lemma_escape_round_trip(u, seq!['}']);
    assert(spec_str_body(d.skip(20 + lt)) == Some((u, seq!['}'])));
    assert(spec_value_end(d, 19 + lt, 0) == Some(21 + lt + lu));
    // the object walk collects exactly the two fields
    assert(spec_obj_items(d, 12 + lt) == Some((seq![(ku, 19 + lt)], 22 + lt + lu)));
    let items = seq![(kt, 9int), (ku, 19 + lt)];
    assert(seq![(kt, 9int)] + seq![(ku, 19 + lt)] =~= items);
    assert(spec_obj_items(d, 1) == Some((items, 22 + lt + lu)));
    assert(kt.len() != ku.len());
    assert(spec_assoc(items, kt) == Some(9int));
    assert(items.drop_first() =~= seq![(ku, 19 + lt)]);
    assert(spec_assoc(seq![(ku, 19 + lt)], ku) == Some(19 + lt));
    assert(spec_assoc(items, ku) == Some(19 + lt));
}

} // verus!
