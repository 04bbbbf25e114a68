//! The two lookup services: their result types, the spelling of a bulk
//! query, the classification of a response status, and the error taxonomy.

use vstd::prelude::*;

verus! {

/// Largest number of names sent in one bulk request.
pub const API_CHUNKS: usize = 10;

/// A predicted gender.
#[derive(Clone, Copy, Debug, PartialEq, Eq, Structural)]
pub enum Gender {
    Female,
    Male,
}

/// Rounded percentage from which a prediction is shown as certain.
pub const CERTAIN_THRESHOLD: u8 = 85;

/// Rounded percentage from which a prediction is shown as probable.
pub const PROBABLE_THRESHOLD: u8 = 75;

/// Gender result for one name.
///
/// The service reports a probability in `[0, 1]`; it is held here as the
/// nearest whole percentage, which is what every decision reads.
#[derive(Clone, Copy, Debug)]
pub struct GenderResult {
    pub gender: Option<Gender>,
    /// Probability of `gender`, as a whole percentage (0 to 100).
    pub percent: u8,
    /// Number of samples the prediction rests on.
    pub count: u32,
}

/// The plain-text label of a gender prediction: the letter, then one
/// question mark below the certain threshold and two below the probable one.
pub open spec fn summary_label(gender: Option<Gender>, percent: u8) -> Seq<char> {
    match gender {
        Some(Gender::Female) => if percent >= CERTAIN_THRESHOLD {
            "F"@
        } else if percent >= PROBABLE_THRESHOLD {
            "F?"@
        } else {
            "F??"@
        },
        Some(Gender::Male) => if percent >= CERTAIN_THRESHOLD {
            "M"@
        } else if percent >= PROBABLE_THRESHOLD {
            "M?"@
        } else {
            "M??"@
        },
        None => "?"@,
    }
}

impl GenderResult {
    /// Plain-text representation of a gender result.
    pub fn summarised(&self) -> (r: &'static str)
        ensures
            r@ == summary_label(self.gender, self.percent),
    {
        match self.gender {
            Some(Gender::Female) => if self.percent >= CERTAIN_THRESHOLD {
                "F"
            } else if self.percent >= PROBABLE_THRESHOLD {
                "F?"
            } else {
                "F??"
            },
            Some(Gender::Male) => if self.percent >= CERTAIN_THRESHOLD {
                "M"
            } else if self.percent >= PROBABLE_THRESHOLD {
                "M?"
            } else {
                "M??"
            },
            None => "?",
        }
    }
}

/// The text of a confidence bar: the percentage, or nothing at zero.
pub fn confidence_label(percent: u8) -> (r: String)
    ensures
        r@ == (if percent > 0 {
            decimal(percent as nat) + "%"@
        } else {
            Seq::<char>::empty()
        }),
{
    if percent > 0 {
        let mut s = decimal_string(percent as u16);
        s.append("%");
        s
    } else {
        String::new()
    }
}

/// Single country result for one name.
#[derive(Clone, Debug)]
pub struct CountryResult {
    /// ISO 3166 alpha-2 code of the country.
    pub country: String,
    /// Probability of this country, as a whole percentage (0 to 100).
    pub percent: u8,
}

/// The character sequences of a list of names.
pub open spec fn name_views(names: Seq<String>) -> Seq<Seq<char>> {
    names.map_values(|s: String| s@)
}

/// Errors from a lookup request.
#[derive(Clone, Debug)]
pub enum ApiError {
    /// The request could not be made or its answer could not be read.
    Transport(String),
    /// The service refused the request because the daily quota is used up.
    LimitExceeded,
    /// The service answered with an unexpected status code and text.
    ServerError(u16, String),
}

/// The decimal spelling of a number, without leading zeros.
pub open spec fn decimal(n: nat) -> Seq<char>
    decreases n,
{
    if n < 10 {
        "0123456789"@.subrange(n as int, n + 1 as int)
    } else {
        decimal(n / 10) + "0123456789"@.subrange((n % 10) as int, (n % 10) + 1 as int)
    }
}

/// The human-readable message of an error.
pub open spec fn error_message(e: ApiError) -> Seq<char> {
    match e {
        ApiError::Transport(m) => "API request failed: "@ + m@,
        ApiError::LimitExceeded => "Daily API limit exceeded - try again tomorrow"@,
        ApiError::ServerError(code, text) => "Server returned error code "@ + decimal(code as nat)
            + " ("@ + text@ + ")"@,
    }
}

fn decimal_string(n: u16) -> (r: String)
    ensures
        r@ == decimal(n as nat),
    decreases n,
{
    let digits = "0123456789";
    proof {
        reveal_strlit("0123456789");
    }
    if n < 10 {
        String::from_str(digits.substring_char(n as usize, n as usize + 1))
    } else {
        let mut s = decimal_string(n / 10);
        let d = (n % 10) as usize;
        s.append(digits.substring_char(d, d + 1));
        s
    }
}

impl ApiError {
    /// The message shown to the user for this error.
    pub fn message(&self) -> (r: String)
        ensures
            r@ == error_message(*self),
    {
        match self {
            ApiError::Transport(m) => {
                let mut s = String::from_str("API request failed: ");
                s.append(m.as_str());
                s
            },
            ApiError::LimitExceeded => String::from_str("Daily API limit exceeded - try again tomorrow"),
            ApiError::ServerError(code, text) => {
                let mut s = String::from_str("Server returned error code ");
                let digits = decimal_string(*code);
                s.append(digits.as_str());
                s.append(" (");
                s.append(text.as_str());
                s.append(")");
                s
            },
        }
    }
}

/// Classifies the status of a response: 200 is success, 429 means the daily
/// quota is used up, and any other status is a server error carrying the
/// status code and text.
pub fn check_status(status: u16, status_text: String) -> (r: Result<(), ApiError>)
    ensures
        status == 200 ==> r is Ok,
        status == 429 ==> r == Err::<(), ApiError>(ApiError::LimitExceeded),
        status != 200 && status != 429 ==> r == Err::<(), ApiError>(
            ApiError::ServerError(status, status_text),
        ),
{
    if status == 429 {
        Err(ApiError::LimitExceeded)
    } else if status != 200 {
        Err(ApiError::ServerError(status, status_text))
    } else {
        Ok(())
    }
}

/// What `urlencoding::encode` makes of a string.
pub uninterp spec fn url_encoded(s: Seq<char>) -> Seq<char>;

/// Characters that percent-encoding leaves as they are.
pub open spec fn is_unreserved(c: char) -> bool {
    ('0' <= c && c <= '9') || ('A' <= c && c <= 'Z') || ('a' <= c && c <= 'z') || c == '-' || c
        == '.' || c == '_' || c == '~'
}

/// Relies on `urlencoding::encode`, which percent-encodes every byte of the
/// UTF-8 form except ASCII alphanumerics and `-`, `.`, `_`, `~`: a string made
/// of those characters only comes back unchanged.
#[verifier::external_body]
fn encode_value(s: &str) -> (r: String)
    ensures
        r@ == url_encoded(s@),
        (forall|i: int| 0 <= i < s@.len() ==> is_unreserved(#[trigger] s@[i])) ==> r@ == s@,
{
    urlencoding::encode(s).into_owned()
}

/// One `name[]` parameter: its separator, the unencoded key and the
/// percent-encoded value.
pub open spec fn name_param(first: bool, name: Seq<char>) -> Seq<char> {
    (if first {
        "?"@
    } else {
        "&"@
    }) + "name[]="@ + url_encoded(name)
}

/// The query string of a bulk lookup: `?name[]=<a>&name[]=<b>...`.
pub open spec fn query_string(names: Seq<Seq<char>>) -> Seq<char>
    decreases names.len(),
{
    if names.len() == 0 {
        Seq::empty()
    } else {
        query_string(names.drop_last()) + name_param(names.len() == 1, names.last())
    }
}

/// Formats the query string of a bulk lookup: each name is passed in a
/// repeated `name[]` parameter whose key is written as it is and whose value
/// is percent-encoded.
pub fn fmt_params(names: &[String]) -> (r: String)
    ensures
        r@ == query_string(name_views(names@)),
{
    let ghost views = name_views(names@);
    let mut params = String::new();
    let mut i: usize = 0;
    while i < names.len()
        invariant
            i <= names.len(),
            views == name_views(names@),
            params@ == query_string(views.take(i as int)),
        decreases names.len() - i,
    {
        let sep = if i == 0 {
            "?"
        } else {
            "&"
        };
        params.append(sep);
        params.append("name[]=");
        let value = encode_value(names[i].as_str());
        params.append(value.as_str());
        proof {
            assert(views.take(i + 1).drop_last() =~= views.take(i as int));
            assert(views.take(i + 1).last() == names@[i as int]@);
        }
        i += 1;
    }
    proof {
        assert(views.take(names.len() as int) =~= views);
    }
    params
}

} // verus!
