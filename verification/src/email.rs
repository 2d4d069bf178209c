//! Validation of the e-mail addresses given at registration and login.

use vstd::prelude::*;
use crate::text::{join, join_strings, string_views};

verus! {

/// What `validator::ValidateEmail::validate_email` decides of an address
/// (the HTML5 address syntax, length limits, IP literals and IDNA domains):
/// a function of the text alone.
pub uninterp spec fn email_format_valid(s: Seq<char>) -> bool;

/// Calls `validate_email` of the `validator` crate on `s`. Its source
/// refuses any text without an `@`.
#[verifier::external_body]
fn validator_accepts_email(s: &str) -> (r: bool)
    ensures
        r == email_format_valid(s@),
        r ==> s@.contains('@'),
{
    validator::ValidateEmail::validate_email(&s)
}

/// The position of the first `c` in `s`, or its length when there is none.
pub open spec fn char_index(s: Seq<char>, c: char) -> int
    decreases s.len(),
{
    if s.len() == 0 {
        0
    } else if s[0] == c {
        0
    } else {
        1 + char_index(s.drop_first(), c)
    }
}

proof fn lemma_char_index(s: Seq<char>, c: char, i: int)
    requires
        0 <= i <= s.len(),
        forall|k: int| 0 <= k < i ==> s[k] != c,
        i == s.len() || s[i] == c,
    ensures
        char_index(s, c) == i,
    decreases i,
{
    if i > 0 {
        lemma_char_index(s.drop_first(), c, i - 1);
    }
}

/// The domain of an address as `email.split('@').nth(1)` gives it: the text
/// between the first `@` and the next one (or the end); none without `@`.
pub open spec fn domain_part(email: Seq<char>) -> Option<Seq<char>> {
    let i = char_index(email, '@');
    if i >= email.len() {
        None
    } else {
        let rest = email.skip(i + 1);
        Some(rest.take(char_index(rest, '@')))
    }
}

/// An address whose domain holds a dot and does not end with one.
pub open spec fn has_valid_extension(email: Seq<char>) -> bool {
    match domain_part(email) {
        Some(d) => d.contains('.') && !(d.len() > 0 && d.last() == '.'),
        None => false,
    }
}

/// A refused field value: the rule's code and its message.
pub struct FieldError {
    pub code: String,
    pub message: String,
}

fn first_at(s: &str, from: usize) -> (r: usize)
    requires
        from <= s@.len(),
    ensures
        from + char_index(s@.skip(from as int), '@') == r,
        from <= r <= s@.len(),
{
    let n = s.unicode_len();
    let mut i = from;
    while i < n && s.get_char(i) != '@'
        invariant
            n == s@.len(),
            from <= i <= n,
            forall|k: int| from <= k < i ==> s@[k] != '@',
        decreases n - i,
    {
        i = i + 1;
    }
    proof {
        lemma_char_index(s@.skip(from as int), '@', i - from);
    }
    i
}

/// The message of the extension rule.
pub open spec fn extension_message() -> Seq<char> {
    "L'email doit contenir un domaine valide (ex: .com, .fr)"@
}

/// Accepts an address whose domain part holds a dot and does not end with
/// one; refuses any other with the code "extension_invalide".
pub fn valider_extension_email(email: &str) -> (r: Result<(), FieldError>)
    ensures
        r is Ok <==> has_valid_extension(email@),
        r matches Err(e) ==> e.code@ == "extension_invalide"@ && e.message@ == extension_message(),
{
    let n = email.unicode_len();
    let i = first_at(email, 0);
    assert(email@.skip(0) =~= email@);
    if i < n {
        let j = first_at(email, i + 1);
        let ghost rest = email@.skip(i + 1);
        let ghost d = rest.take(char_index(rest, '@'));
        assert(d =~= email@.subrange(i + 1, j as int));
        let mut has_dot = false;
        let mut k = i + 1;
        while k < j
            invariant
                i + 1 <= k <= j <= n,
                n == email@.len(),
                d == email@.subrange(i + 1, j as int),
                has_dot <==> exists|q: int| i + 1 <= q < k && email@[q] == '.',
            decreases j - k,
        {
            if email.get_char(k) == '.' {
                has_dot = true;
            }
            k = k + 1;
        }
        proof {
            if has_dot {
                let q = choose|q: int| i + 1 <= q < j && email@[q] == '.';
                assert(d[q - i - 1] == '.');
            }
            if d.contains('.') {
                let q = choose|q: int| 0 <= q < d.len() && d[q] == '.';
                assert(email@[q + i + 1] == '.');
            }
        }
        let ends_with_dot = j > i + 1 && email.get_char(j - 1) == '.';
        if has_dot && !ends_with_dot {
            return Ok(());
        }
    }
    Err(FieldError {
        code: "extension_invalide".to_owned(),
        message: "L'email doit contenir un domaine valide (ex: .com, .fr)".to_owned(),
    })
}

/// The message of the address syntax rule.
pub open spec fn format_message() -> Seq<char> {
    "Format d'email invalide"@
}

/// The refusals of an address, rule by rule: the syntax rule (code "email"),
/// then the extension rule (code "extension_invalide").
pub open spec fn email_refusals(email: Seq<char>) -> Seq<Seq<char>> {
    (if email_format_valid(email) {
        seq![]
    } else {
        seq!["email"@]
    }) + if has_valid_extension(email) {
        seq![]
    } else {
        seq!["extension_invalide"@]
    }
}

/// The codes of a list of refusals.
pub open spec fn error_codes(errors: Seq<FieldError>) -> Seq<Seq<char>> {
    errors.map_values(|e: FieldError| e.code@)
}

/// Checks an address against both rules; the refusals come in rule order.
pub fn validate_email_field(email: &str) -> (r: Result<(), Vec<FieldError>>)
    ensures
        r is Ok <==> email_format_valid(email@) && has_valid_extension(email@),
        r matches Err(errs) ==> error_codes(errs@) == email_refusals(email@),
{
    let mut errors: Vec<FieldError> = Vec::new();
    if !validator_accepts_email(email) {
        errors.push(FieldError {
            code: "email".to_owned(),
            message: "Format d'email invalide".to_owned(),
        });
    }
    let ghost first = errors@;
    match valider_extension_email(email) {
        Ok(()) => {},
        Err(e) => errors.push(e),
    }
    proof {
        assert(error_codes(errors@) =~= email_refusals(email@));
    }
    if errors.len() == 0 {
        Ok(())
    } else {
        Err(errors)
    }
}

/// The body of a registration request.
pub struct RegisterDto {
    pub email: String,
    pub password: String,
    pub role_id: i32,
}

/// The body of a login request.
pub struct LoginDto {
    pub email: String,
    pub password: String,
}

impl RegisterDto {
    /// Checks the address of a registration.
    pub fn validate(&self) -> (r: Result<(), Vec<FieldError>>)
        ensures
            r is Ok <==> email_format_valid(self.email@) && has_valid_extension(self.email@),
            r matches Err(errs) ==> error_codes(errs@) == email_refusals(self.email@),
    {
        validate_email_field(self.email.as_str())
    }
}

impl LoginDto {
    /// Checks the address of a login.
    pub fn validate(&self) -> (r: Result<(), Vec<FieldError>>)
        ensures
            r is Ok <==> email_format_valid(self.email@) && has_valid_extension(self.email@),
            r matches Err(errs) ==> error_codes(errs@) == email_refusals(self.email@),
    {
        validate_email_field(self.email.as_str())
    }
}

/// The messages of a list of refusals, in order.
pub open spec fn error_messages(errors: Seq<FieldError>) -> Seq<Seq<char>> {
    errors.map_values(|e: FieldError| e.message@)
}

/// The description of the refusals of the address field, as the validator
/// displays the errors of a field: its name, a colon and a space, then the
/// messages separated by a comma and a space.
pub open spec fn email_errors_text(errors: Seq<FieldError>) -> Seq<char> {
    "email: "@ + join(error_messages(errors), ", "@)
}

/// Describes the refusals of the address field (see `email_errors_text`).
pub fn describe_email_errors(errors: &Vec<FieldError>) -> (r: String)
    ensures
        r@ == email_errors_text(errors@),
{
    let mut messages: Vec<String> = Vec::new();
    let mut i: usize = 0;
    while i < errors.len()
        invariant
            i <= errors.len(),
            string_views(messages@) == error_messages(errors@).take(i as int),
        decreases errors.len() - i,
    {
        let ghost before = messages@;
        messages.push(errors[i].message.clone());
        assert(string_views(messages@) =~= string_views(before).push(errors@[i as int].message@));
        assert(error_messages(errors@).take(i + 1) =~= error_messages(errors@).take(i as int).push(
            errors@[i as int].message@,
        ));
        i = i + 1;
    }
    assert(error_messages(errors@).take(errors.len() as int) =~= error_messages(errors@));
    let joined = join_strings(&messages, ", ");
    "email: ".to_owned().concat(joined.as_str())
}

} // verus!
