use vstd::prelude::*;

use crate::errors::TrackerError;
use crate::registry::is_theme_name;
use crate::text::{push_digits, spec_digits, str_chars, str_eq};

verus! {

/// An HTTP method of the remote surface.
#[derive(PartialEq, Eq, Structural, Debug, Clone, Copy)]
pub enum Method {
    Get,
    Post,
    Put,
    Delete,
}

/// One request against the remote service: everything the transport needs
/// besides the base URL and the API key, which every call carries alike.
pub struct ApiRequest {
    pub method: Method,
    pub path: String,
    pub body: Option<String>,
    pub success_status: u16,
}

/// The mathematical value of an `ApiRequest`.
#[verifier::ext_equal]
pub struct ApiRequestView {
    pub method: Method,
    pub path: Seq<char>,
    pub body: Option<Seq<char>>,
    pub success_status: u16,
}

impl View for ApiRequest {
    type V = ApiRequestView;

    open spec fn view(&self) -> ApiRequestView {
        ApiRequestView {
            method: self.method,
            path: self.path@,
            body: match self.body {
                Some(b) => Some(b@),
                None => None,
            },
            success_status: self.success_status,
        }
    }
}

// ---------------------------------------------------------------------------
// JSON rendering of the request bodies.
// ---------------------------------------------------------------------------

/// A lowercase hexadecimal digit character.
pub open spec fn lhex_char(d: int) -> char {
    if d == 0 { '0' }
    else if d == 1 { '1' }
    else if d == 2 { '2' }
    else if d == 3 { '3' }
    else if d == 4 { '4' }
    else if d == 5 { '5' }
    else if d == 6 { '6' }
    else if d == 7 { '7' }
    else if d == 8 { '8' }
    else if d == 9 { '9' }
    else if d == 10 { 'a' }
    else if d == 11 { 'b' }
    else if d == 12 { 'c' }
    else if d == 13 { 'd' }
    else if d == 14 { 'e' }
    else { 'f' }
}

/// The JSON escape of one character: quotes and backslashes are escaped,
/// common control characters get their short escapes, other control
/// characters a `\u00..` escape, and everything else stands as itself.
pub open spec fn esc_char(c: char) -> Seq<char> {
    if c == '"' {
        seq!['\\', '"']
    } else if c == '\\' {
        seq!['\\', '\\']
    } else if c == '\n' {
        seq!['\\', 'n']
    } else if c == '\r' {
        seq!['\\', 'r']
    } else if c == '\t' {
        seq!['\\', 't']
    } else if (c as u32) < 32 {
        seq!['\\', 'u', '0', '0', lhex_char((c as int) / 16), lhex_char((c as int) % 16)]
    } else {
        seq![c]
    }
}

/// The JSON escape of a text.
pub open spec fn json_escape(s: Seq<char>) -> Seq<char>
    decreases s.len(),
{
    if s.len() == 0 {
        Seq::empty()
    } else {
        json_escape(s.drop_last()) + esc_char(s.last())
    }
}

/// A JSON string literal.
pub open spec fn json_string(s: Seq<char>) -> Seq<char> {
    seq!['"'] + json_escape(s) + seq!['"']
}

/// The JSON form of a task, as the remote surface expects it.
pub open spec fn json_task(
    id: int,
    name: Seq<char>,
    description: Seq<char>,
    eta: Seq<char>,
    category: Option<Seq<char>>,
) -> Seq<char> {
    "{\"id\":"@ + spec_digits(id) + ",\"name\":"@ + json_string(name) + ",\"description\":"@
        + json_string(description) + ",\"eta\":"@ + json_string(eta) + ",\"category\":"@ + (match category {
        None => "null"@,
        Some(c) => json_string(c),
    }) + "}"@
}

/// The JSON form of a category.
pub open spec fn json_category(id: int, name: Seq<char>) -> Seq<char> {
    "{\"id\":"@ + spec_digits(id) + ",\"name\":"@ + json_string(name) + "}"@
}

/// The JSON body of a theme update.
pub open spec fn json_new_theme(name: Seq<char>) -> Seq<char> {
    "{\"newTheme\":"@ + json_string(name) + "}"@
}

/// The JSON body of a category assignment.
pub open spec fn json_category_id(id: int) -> Seq<char> {
    "{\"categoryId\":"@ + spec_digits(id) + "}"@
}

/// A lowercase hexadecimal digit character.
fn lhex_to_char(d: u32) -> (c: char)
    requires
        d < 16,
    ensures
        c == lhex_char(d as int),
{
    if d == 0 { '0' }
    else if d == 1 { '1' }
    else if d == 2 { '2' }
    else if d == 3 { '3' }
    else if d == 4 { '4' }
    else if d == 5 { '5' }
    else if d == 6 { '6' }
    else if d == 7 { '7' }
    else if d == 8 { '8' }
    else if d == 9 { '9' }
    else if d == 10 { 'a' }
    else if d == 11 { 'b' }
    else if d == 12 { 'c' }
    else if d == 13 { 'd' }
    else if d == 14 { 'e' }
    else { 'f' }
}

/// Appends the JSON escape of one character.
fn push_esc_char(v: &mut Vec<char>, c: char)
    ensures
        final(v)@ == old(v)@ + esc_char(c),
{
    if c == '"' {
        v.push('\\');
        v.push('"');
    } else if c == '\\' {
        v.push('\\');
        v.push('\\');
    } else if c == '\n' {
        v.push('\\');
        v.push('n');
    } else if c == '\r' {
        v.push('\\');
        v.push('r');
    } else if c == '\t' {
        v.push('\\');
        v.push('t');
    } else if (c as u32) < 32 {
        v.push('\\');
        v.push('u');
        v.push('0');
        v.push('0');
        v.push(lhex_to_char((c as u32) / 16));
        v.push(lhex_to_char((c as u32) % 16));
    } else {
        v.push(c);
    }
    proof {
        assert(v@ =~= old(v)@ + esc_char(c));
    }
}

/// Appends a JSON string literal.
fn push_json_string(v: &mut Vec<char>, s: &str)
    ensures
        final(v)@ == old(v)@ + json_string(s@),
{
    v.push('"');
    let n = s.unicode_len();
    let ghost base = v@;
    let mut i: usize = 0;
    proof {
        assert(json_escape(s@.take(0)) =~= Seq::<char>::empty());
        assert(v@ =~= base + json_escape(s@.take(0)));
    }
    while i < n
        invariant
            i <= n,
            n == s@.len(),
            v@ == base + json_escape(s@.take(i as int)),
        decreases n - i,
    {
        push_esc_char(v, s.get_char(i));
        proof {
            assert(s@.take(i as int + 1).drop_last() =~= s@.take(i as int));
            assert(s@.take(i as int + 1).last() == s@[i as int]);
            assert(v@ =~= base + json_escape(s@.take(i as int + 1)));
        }
        i = i + 1;
    }
    proof {
        assert(s@.take(n as int) =~= s@);
    }
    v.push('"');
    proof {
        assert(v@ =~= old(v)@ + json_string(s@));
    }
}

/// Appends every character of a literal piece.
fn push_piece(v: &mut Vec<char>, piece: &str)
    ensures
        final(v)@ == old(v)@ + piece@,
{
    let mut cs = str_chars(piece);
    v.append(&mut cs);
}

/// Renders the JSON form of a task.
fn task_body(id: u64, name: &str, description: &str, eta: &str, category: &Option<String>) -> (b:
    String)
    ensures
        b@ == json_task(
            id as int,
            name@,
            description@,
            eta@,
            match category {
                Some(c) => Some(c@),
                None => None,
            },
        ),
{
    let mut v: Vec<char> = Vec::new();
    push_piece(&mut v, "{\"id\":");
    push_digits(&mut v, id);
    push_piece(&mut v, ",\"name\":");
    push_json_string(&mut v, name);
    push_piece(&mut v, ",\"description\":");
    push_json_string(&mut v, description);
    push_piece(&mut v, ",\"eta\":");
    push_json_string(&mut v, eta);
    push_piece(&mut v, ",\"category\":");
    match category {
        None => push_piece(&mut v, "null"),
        Some(c) => push_json_string(&mut v, c.as_str()),
    }
    push_piece(&mut v, "}");
    proof {
        assert(v@ =~= json_task(
            id as int,
            name@,
            description@,
            eta@,
            match category {
                Some(c) => Some(c@),
                None => None,
            },
        ));
    }
    crate::text::chars_to_string(&v)
}

/// Renders the JSON form of a category.
fn category_body(id: u64, name: &str) -> (b: String)
    ensures
        b@ == json_category(id as int, name@),
{
    let mut v: Vec<char> = Vec::new();
    push_piece(&mut v, "{\"id\":");
    push_digits(&mut v, id);
    push_piece(&mut v, ",\"name\":");
    push_json_string(&mut v, name);
    push_piece(&mut v, "}");
    proof {
        assert(v@ =~= json_category(id as int, name@));
    }
    crate::text::chars_to_string(&v)
}

/// Renders a path of the form `prefix` + decimal id.
fn id_path(prefix: &str, id: u64) -> (p: String)
    ensures
        p@ == prefix@ + spec_digits(id as int),
{
    let mut v: Vec<char> = Vec::new();
    push_piece(&mut v, prefix);
    push_digits(&mut v, id);
    crate::text::chars_to_string(&v)
}

// ---------------------------------------------------------------------------
// One request description per remote operation.
// ---------------------------------------------------------------------------

impl ApiRequest {
    /// Reads the stored theme.
    pub fn get_theme() -> (r: ApiRequest)
        ensures
            r@ == (ApiRequestView {
                method: Method::Get,
                path: "/theme"@,
                body: None,
                success_status: 200,
            }),
    {
        ApiRequest {
            method: Method::Get,
            path: "/theme".to_owned(),
            body: None,
            success_status: 200,
        }
    }

    /// Stores a new theme. The name is validated first: an unrecognized
    /// name reports `InvalidInput` and no request is made.
    pub fn change_theme(name: &str) -> (r: Result<ApiRequest, TrackerError>)
        ensures
            !is_theme_name(name@) ==> r is Err && r == Err::<ApiRequest, TrackerError>(
                TrackerError::InvalidInput,
            ),
            is_theme_name(name@) ==> r is Ok && r.unwrap()@ == (ApiRequestView {
                method: Method::Post,
                path: "/theme"@,
                body: Some(json_new_theme(name@)),
                success_status: 200,
            }),
    {
        let recognized = str_eq(name, "Desert") || str_eq(name, "Oasis") || str_eq(name, "Forest")
            || str_eq(name, "Snow");
        if !recognized {
            return Err(TrackerError::InvalidInput);
        }
        let mut v: Vec<char> = Vec::new();
        push_piece(&mut v, "{\"newTheme\":");
        push_json_string(&mut v, name);
        push_piece(&mut v, "}");
        proof {
            assert(v@ =~= json_new_theme(name@));
        }
        Ok(ApiRequest {
            method: Method::Post,
            path: "/theme".to_owned(),
            body: Some(crate::text::chars_to_string(&v)),
            success_status: 200,
        })
    }

    /// Creates a task. The id is a placeholder: the remote service
    /// allocates the real one.
    pub fn create_task(name: &str, description: &str, eta: &str) -> (r: ApiRequest)
        ensures
            r@ == (ApiRequestView {
                method: Method::Post,
                path: "/tasks"@,
                body: Some(json_task(0, name@, description@, eta@, None)),
                success_status: 201,
            }),
    {
        ApiRequest {
            method: Method::Post,
            path: "/tasks".to_owned(),
            body: Some(task_body(0, name, description, eta, &None)),
            success_status: 201,
        }
    }

    /// Lists every task.
    pub fn list_tasks() -> (r: ApiRequest)
        ensures
            r@ == (ApiRequestView {
                method: Method::Get,
                path: "/tasks"@,
                body: None,
                success_status: 200,
            }),
    {
        ApiRequest {
            method: Method::Get,
            path: "/tasks".to_owned(),
            body: None,
            success_status: 200,
        }
    }

    /// Replaces every field of the task with id `id`.
    pub fn update_task(id: u64, name: &str, description: &str, eta: &str) -> (r: ApiRequest)
        ensures
            r@ == (ApiRequestView {
                method: Method::Put,
                path: "/tasks/"@ + spec_digits(id as int),
                body: Some(json_task(id as int, name@, description@, eta@, None)),
                success_status: 200,
            }),
    {
        ApiRequest {
            method: Method::Put,
            path: id_path("/tasks/", id),
            body: Some(task_body(id, name, description, eta, &None)),
            success_status: 200,
        }
    }

    /// Deletes the task with id `id`.
    pub fn delete_task(id: u64) -> (r: ApiRequest)
        ensures
            r@ == (ApiRequestView {
                method: Method::Delete,
                path: "/tasks/"@ + spec_digits(id as int),
                body: None,
                success_status: 200,
            }),
    {
        ApiRequest {
            method: Method::Delete,
            path: id_path("/tasks/", id),
            body: None,
            success_status: 200,
        }
    }

    /// Assigns the category with id `category_id` to the task with id
    /// `task_id`.
    pub fn assign_category(task_id: u64, category_id: u64) -> (r: ApiRequest)
        ensures
            r@ == (ApiRequestView {
                method: Method::Post,
                path: "/tasks/"@ + spec_digits(task_id as int) + "/assign-category"@,
                body: Some(json_category_id(category_id as int)),
                success_status: 200,
            }),
    {
        let mut v: Vec<char> = Vec::new();
        push_piece(&mut v, "/tasks/");
        push_digits(&mut v, task_id);
        push_piece(&mut v, "/assign-category");
        let mut b: Vec<char> = Vec::new();
        push_piece(&mut b, "{\"categoryId\":");
        push_digits(&mut b, category_id);
        push_piece(&mut b, "}");
        proof {
            assert(b@ =~= json_category_id(category_id as int));
        }
        ApiRequest {
            method: Method::Post,
            path: crate::text::chars_to_string(&v),
            body: Some(crate::text::chars_to_string(&b)),
            success_status: 200,
        }
    }

    /// Creates a category; the id is a placeholder as for tasks.
    pub fn create_category(name: &str) -> (r: ApiRequest)
        ensures
            r@ == (ApiRequestView {
                method: Method::Post,
                path: "/categories"@,
                body: Some(json_category(0, name@)),
                success_status: 201,
            }),
    {
        ApiRequest {
            method: Method::Post,
            path: "/categories".to_owned(),
            body: Some(category_body(0, name)),
            success_status: 201,
        }
    }

    /// Lists every category.
    pub fn list_categories() -> (r: ApiRequest)
        ensures
            r@ == (ApiRequestView {
                method: Method::Get,
                path: "/categories"@,
                body: None,
                success_status: 200,
            }),
    {
        ApiRequest {
            method: Method::Get,
            path: "/categories".to_owned(),
            body: None,
            success_status: 200,
        }
    }

    /// Reads the category with id `id`.
    pub fn get_category(id: u64) -> (r: ApiRequest)
        ensures
            r@ == (ApiRequestView {
                method: Method::Get,
                path: "/categories/"@ + spec_digits(id as int),
                body: None,
                success_status: 200,
            }),
    {
        ApiRequest {
            method: Method::Get,
            path: id_path("/categories/", id),
            body: None,
            success_status: 200,
        }
    }

    /// Renames the category with id `id`.
    pub fn update_category(id: u64, name: &str) -> (r: ApiRequest)
        ensures
            r@ == (ApiRequestView {
                method: Method::Put,
                path: "/categories/"@ + spec_digits(id as int),
                body: Some(json_category(id as int, name@)),
                success_status: 200,
            }),
    {
        ApiRequest {
            method: Method::Put,
            path: id_path("/categories/", id),
            body: Some(category_body(id, name)),
            success_status: 200,
        }
    }

    /// Deletes the category with id `id`.
    pub fn delete_category(id: u64) -> (r: ApiRequest)
        ensures
            r@ == (ApiRequestView {
                method: Method::Delete,
                path: "/categories/"@ + spec_digits(id as int),
                body: None,
                success_status: 200,
            }),
    {
        ApiRequest {
            method: Method::Delete,
            path: id_path("/categories/", id),
            body: None,
            success_status: 200,
        }
    }
}

// ---------------------------------------------------------------------------
// Interpreting what came back. The transport in the surrounding program
// performs the exchange and hands in plain values; these functions decide,
// and are verified for every outcome the transport can report.
// ---------------------------------------------------------------------------

/// Classifies a response: the expected status yields the body as success,
/// any other status is a remote failure carrying the body, and a transport
/// breakdown is a transport error carrying its cause.
pub fn interpret_response(expected_status: u16, outcome: Result<(u16, String), String>) -> (r:
    Result<String, TrackerError>)
    ensures
        match outcome {
            Err(cause) => r == Err::<String, TrackerError>(TrackerError::TransportError(cause)),
            Ok((status, body)) => if status == expected_status {
                r == Ok::<String, TrackerError>(body)
            } else {
                r == Err::<String, TrackerError>(TrackerError::RemoteFailure(body))
            },
        },
{
    match outcome {
        Err(cause) => Err(TrackerError::TransportError(cause)),
        Ok((status, body)) => if status == expected_status {
            Ok(body)
        } else {
            Err(TrackerError::RemoteFailure(body))
        },
    }
}

/// The theme a run works with: the one the service reported, or `Default`
/// when the request failed in any way, came back with another status, or
/// its body did not parse.
pub fn effective_theme(outcome: Result<(u16, Option<String>), String>) -> (r: String)
    ensures
        r@ == match outcome {
            Ok((status, parsed)) => if status == 200 && parsed is Some {
                parsed.unwrap()@
            } else {
                "Default"@
            },
            Err(_) => "Default"@,
        },
{
    match outcome {
        Ok((status, parsed)) => if status == 200 {
            match parsed {
                Some(t) => t,
                None => "Default".to_owned(),
            }
        } else {
            "Default".to_owned()
        },
        Err(_) => "Default".to_owned(),
    }
}

/// The label a remote category lookup yields for grouping: the category's
/// name when the lookup succeeded and parsed, `Unknown` otherwise.
pub fn category_label(outcome: Result<(u16, Option<String>), String>) -> (r: String)
    ensures
        r@ == match outcome {
            Ok((status, parsed)) => if status == 200 && parsed is Some {
                parsed.unwrap()@
            } else {
                "Unknown"@
            },
            Err(_) => "Unknown"@,
        },
{
    match outcome {
        Ok((status, parsed)) => if status == 200 {
            match parsed {
                Some(name) => name,
                None => "Unknown".to_owned(),
            }
        } else {
            "Unknown".to_owned()
        },
        Err(_) => "Unknown".to_owned(),
    }
}

} // verus!
