//! Logging in to Telegram: credentials, and what is asked in which order.
use crate::number::{
    decimal_int, explain_number, format_i64, i32_value, lemma_decimal_int_round_trip,
    number_error, parse_i32,
};
use crate::text::{
    all_digits, all_hex_digits, ascii_digit, ascii_hex_digit, ascii_lowered,
    equal_ignoring_ascii_case, is_all_hex_digits, is_ascii_digit, is_empty_text, join_lines,
    joined_lines, lemma_lines_joined, lemma_trimmed_fixed, lines, plain_line, split_lines, texts,
    to_chars, trim, trimmed, white_space,
};
use vstd::prelude::*;

verus! {

pub const SESSION_FILE: &'static str = ".music-terminal/telegram.session";

pub const TELEGRAM_CREDENTIALS_FILE: &'static str = ".music-terminal/telegram.credentials";

pub const TELEGRAM_CACHE_DIR: &'static str = ".music-terminal/telegram-cache";

/// What the launcher says of the account.
pub fn telegram_login_status(session_exists: bool, credentials_exist: bool) -> (r: &'static str)
    ensures
        r@ == if session_exists && credentials_exist {
            "logged in (saved session)"@
        } else {
            "not logged in"@
        },
{
    if session_exists && credentials_exist {
        "logged in (saved session)"
    } else {
        "not logged in"
    }
}

// ---------------------------------------------------------------------------
// Credentials
// ---------------------------------------------------------------------------

/// The credentials of an application.
#[derive(Debug, PartialEq, Eq)]
pub struct Credentials {
    pub id: i32,
    pub hash: String,
}

/// A positive id and a hash of 32 hexadecimal digits.
pub open spec fn credentials_ok(id: i32, hash: Seq<char>) -> bool {
    id > 0 && hash.len() == 32 && all_hex_digits(hash)
}

pub fn valid_api_credentials(id: i32, hash: &str) -> (r: bool)
    ensures
        r == credentials_ok(id, hash@),
{
    id > 0 && to_chars(hash).len() == 32 && is_all_hex_digits(hash)
}

/// The credentials in the environment, where both variables are set.
pub fn environment_credentials(id: Option<&str>, hash: Option<&str>) -> (r: Result<
    Option<Credentials>,
    String,
>)
    ensures
        match (id, hash) {
            (Some(id), Some(hash)) => match i32_value(id@) {
                None => r matches Err(e) && e@ == "TG_ID must be an integer: "@ + number_error(
                    id@,
                    true,
                    i32::MAX as nat,
                ),
                Some(number) => if credentials_ok(number, hash@) {
                    r matches Ok(Some(c)) && c.id == number && c.hash@ == hash@
                } else {
                    r matches Err(e) && e@
                        == "TG_ID/TG_HASH must contain a positive ID and a 32-character hexadecimal hash"@
                },
            },
            _ => r matches Ok(None),
        },
{
    match (id, hash) {
        (Some(id), Some(hash)) => match parse_i32(id) {
            None => {
                let mut e = "TG_ID must be an integer: ".to_string();
                e.append(explain_number(id, true, 2147483647));
                Err(e)
            },
            Some(id) => if valid_api_credentials(id, hash) {
                Ok(Some(Credentials { id, hash: hash.to_string() }))
            } else {
                Err(
                    "TG_ID/TG_HASH must contain a positive ID and a 32-character hexadecimal hash".to_string(),
                )
            },
        },
        _ => Ok(None),
    }
}

/// The credentials in a saved file.
pub open spec fn saved(text: Seq<char>) -> Option<(i32, Seq<char>)> {
    let rows = lines(text);
    if rows.len() < 2 {
        None
    } else {
        match i32_value(trimmed(rows[0])) {
            Some(id) => if credentials_ok(id, trimmed(rows[1])) {
                Some((id, trimmed(rows[1])))
            } else {
                None
            },
            None => None,
        }
    }
}

pub fn saved_credentials(text: &str) -> (r: Option<Credentials>)
    ensures
        match r {
            Some(c) => saved(text@) == Some((c.id, c.hash@)),
            None => saved(text@) is None,
        },
{
    let rows = split_lines(text);
    let ghost all = lines(text@);
    assert(all.len() == rows@.len());
    if rows.len() < 2 {
        return None;
    }
    assert(all[0] == rows@[0]@ && all[1] == rows@[1]@);
    match parse_i32(trim(rows[0].as_str()).as_str()) {
        Some(id) => {
            let hash = trim(rows[1].as_str());
            if valid_api_credentials(id, hash.as_str()) {
                Some(Credentials { id, hash })
            } else {
                None
            }
        },
        None => None,
    }
}

/// The lines of the file that keeps credentials.
pub open spec fn credential_lines(id: i32, hash: Seq<char>) -> Seq<Seq<char>> {
    seq![decimal_int(id as int), hash]
}

pub fn credentials_text(credentials: &Credentials) -> (r: String)
    ensures
        r@ == joined_lines(credential_lines(credentials.id, credentials.hash@)),
{
    let mut rows: Vec<String> = Vec::new();
    rows.push(format_i64(credentials.id as i64));
    rows.push(credentials.hash.as_str().to_string());
    assert(texts(rows@) =~= credential_lines(credentials.id, credentials.hash@));
    join_lines(&rows)
}

/// Credentials that were saved are read back.
pub proof fn credentials_round_trip(id: i32, hash: Seq<char>)
    requires
        credentials_ok(id, hash),
    ensures
        saved(joined_lines(credential_lines(id, hash))) == Some((id, hash)),
{
    let rows = credential_lines(id, hash);
    let number = decimal_int(id as int);
    lemma_decimal_int_round_trip(id as int);
    assert forall|i: int| 0 <= i < number.len() implies !white_space(#[trigger] number[i]) by {
        assert(ascii_digit(number[i]) || number[i] == '-');
    }
    assert forall|i: int| 0 <= i < hash.len() implies !white_space(#[trigger] hash[i]) by {
        assert(ascii_hex_digit(hash[i]));
    }
    assert(plain_line(number));
    assert(plain_line(hash));
    assert forall|i: int| 0 <= i < rows.len() implies plain_line(#[trigger] rows[i]) by {}
    lemma_lines_joined(rows);
    lemma_trimmed_fixed(number);
    lemma_trimmed_fixed(hash);
}

/// A typed id, where it is a positive number.
pub fn typed_api_id(input: &str) -> (r: Option<i32>)
    ensures
        r == match i32_value(trimmed(input@)) {
            Some(id) => if id > 0 {
                Some(id)
            } else {
                None
            },
            None => None,
        },
{
    match parse_i32(trim(input).as_str()) {
        Some(id) => if id > 0 {
            Some(id)
        } else {
            None
        },
        None => None,
    }
}

/// Typed credentials, where the hash is one.
pub fn typed_credentials(id: i32, hash: &str) -> (r: Option<Credentials>)
    ensures
        match r {
            Some(c) => credentials_ok(id, trimmed(hash@)) && c.id == id && c.hash@ == trimmed(
                hash@,
            ),
            None => !credentials_ok(id, trimmed(hash@)),
        },
{
    let hash = trim(hash);
    if valid_api_credentials(id, hash.as_str()) {
        Some(Credentials { id, hash })
    } else {
        None
    }
}

// ---------------------------------------------------------------------------
// The login
// ---------------------------------------------------------------------------

/// What is asked or done at a point of the login.
#[derive(Clone, Copy, Debug, PartialEq, Eq, Structural)]
pub enum LoginState {
    /// The phone number is asked.
    AskPhone,
    /// A code is requested for the phone number.
    RequestCode,
    /// After a failed request it is asked how to go on.
    AskRecovery,
    /// The code is asked.
    AskCode,
    /// The code is sent.
    SignIn,
    /// The two-step password is asked.
    AskPassword,
    /// The password is sent.
    CheckPassword,
    /// The account is ready.
    Done,
    /// The credentials are to be removed, and the login ends.
    ClearCredentials,
}

/// What came of a code or a password that was sent.
pub enum SignInReply {
    Accepted,
    InvalidCode,
    PasswordRequired,
    InvalidPassword,
    Failed(String),
}

/// A login: its state, the phone number, the code, the password, and what is
/// to be said.
pub struct Login {
    pub state: LoginState,
    pub phone: String,
    pub code: String,
    pub password: String,
    pub message: String,
}

/// A phone number with its country code: a plus sign and digits.
pub open spec fn phone_number(s: Seq<char>) -> bool {
    s.len() > 1 && s[0] == '+' && all_digits(s.skip(1))
}

pub fn is_phone_number(phone: &str) -> (r: bool)
    ensures
        r == phone_number(phone@),
{
    let chars = to_chars(phone);
    if chars.len() < 2 || chars[0] != '+' {
        return false;
    }
    let mut i: usize = 1;
    while i < chars.len()
        invariant
            1 <= i <= chars@.len(),
            chars@ == phone@,
            forall|k: int| 0 <= k < i - 1 ==> ascii_digit(#[trigger] phone@.skip(1)[k]),
        decreases chars@.len() - i,
    {
        if !is_ascii_digit(chars[i]) {
            assert(!ascii_digit(phone@.skip(1)[i - 1]));
            return false;
        }
        i += 1;
    }
    true
}

/// What a typed answer says, without regard to case and space around it.
pub open spec fn answers(input: Seq<char>, word: Seq<char>) -> bool {
    ascii_lowered(trimmed(input)) == ascii_lowered(word)
}

pub fn is_answer(input: &str, word: &str) -> (r: bool)
    ensures
        r == answers(input@, word@),
{
    equal_ignoring_ascii_case(trim(input).as_str(), word)
}

/// Which state a typed line leads to.
pub open spec fn typed_state(state: LoginState, input: Seq<char>) -> LoginState {
    match state {
        LoginState::AskPhone => if phone_number(trimmed(input)) {
            LoginState::RequestCode
        } else {
            LoginState::AskPhone
        },
        LoginState::AskRecovery => if answers(input, "credentials"@) {
            LoginState::ClearCredentials
        } else if answers(input, "phone"@) {
            LoginState::AskPhone
        } else {
            LoginState::RequestCode
        },
        LoginState::AskCode => if trimmed(input).len() == 0 {
            LoginState::AskCode
        } else {
            LoginState::SignIn
        },
        LoginState::AskPassword => LoginState::CheckPassword,
        _ => state,
    }
}

/// What is said to a typed line.
pub open spec fn typed_message(state: LoginState, input: Seq<char>) -> Seq<char> {
    if state == LoginState::AskPhone && !phone_number(trimmed(input)) {
        "Invalid phone number. Include + and the country code."@
    } else if state == LoginState::AskCode && trimmed(input).len() == 0 {
        "Login code cannot be empty."@
    } else if state == LoginState::AskRecovery && answers(input, "credentials"@) {
        "Telegram credentials cleared; retry login to enter them again"@
    } else {
        seq![]
    }
}

pub open spec fn failed_login(error: Seq<char>) -> Seq<char> {
    "Telegram login failed: "@ + error + ". Requesting a new code."@
}

/// Which state a reply to a code or a password leads to.
pub open spec fn replied_state(state: LoginState, reply: SignInReply) -> LoginState {
    if state != LoginState::SignIn && state != LoginState::CheckPassword {
        state
    } else {
        match reply {
            SignInReply::Accepted => LoginState::Done,
            SignInReply::InvalidCode => if state == LoginState::SignIn {
                LoginState::AskCode
            } else {
                LoginState::AskPhone
            },
            SignInReply::PasswordRequired => if state == LoginState::SignIn {
                LoginState::AskPassword
            } else {
                LoginState::AskPhone
            },
            SignInReply::InvalidPassword => if state == LoginState::CheckPassword {
                LoginState::AskPassword
            } else {
                LoginState::AskPhone
            },
            SignInReply::Failed(_) => LoginState::AskPhone,
        }
    }
}

/// What is said to a reply. A reply that does not fit what was sent counts as
/// a failure.
pub open spec fn replied_message(state: LoginState, reply: SignInReply) -> Seq<char> {
    if state != LoginState::SignIn && state != LoginState::CheckPassword {
        seq![]
    } else {
        match reply {
            SignInReply::Accepted => seq![],
            SignInReply::InvalidCode => if state == LoginState::SignIn {
                "Invalid login code. Try again."@
            } else {
                failed_login("invalid code"@)
            },
            SignInReply::PasswordRequired => if state == LoginState::SignIn {
                seq![]
            } else {
                failed_login("password required"@)
            },
            SignInReply::InvalidPassword => if state == LoginState::CheckPassword {
                "Invalid two-step password. Try again."@
            } else {
                failed_login("invalid password"@)
            },
            SignInReply::Failed(error) => failed_login(error@),
        }
    }
}

fn login_failure(error: &str) -> (r: String)
    ensures
        r@ == failed_login(error@),
{
    let mut out = "Telegram login failed: ".to_string();
    out.append(error);
    out.append(". Requesting a new code.");
    out
}

fn silence() -> (r: String)
    ensures
        r@ == Seq::<char>::empty(),
{
    let r = String::new();
    assert(r@ =~= seq![]);
    r
}

impl Login {
    /// A login before anything was asked.
    pub fn new() -> (r: Login)
        ensures
            r.state == LoginState::AskPhone,
            r.phone@ == Seq::<char>::empty(),
            r.code@ == Seq::<char>::empty(),
            r.password@ == Seq::<char>::empty(),
            r.message@ == Seq::<char>::empty(),
    {
        Login {
            state: LoginState::AskPhone,
            phone: silence(),
            code: silence(),
            password: silence(),
            message: silence(),
        }
    }

    /// Takes a typed line.
    pub fn typed(&mut self, input: &str)
        ensures
            final(self).state == typed_state(old(self).state, input@),
            final(self).message@ == typed_message(old(self).state, input@),
            final(self).phone@ == if old(self).state == LoginState::AskPhone && phone_number(
                trimmed(input@),
            ) {
                trimmed(input@)
            } else {
                old(self).phone@
            },
            final(self).code@ == if old(self).state == LoginState::AskCode && trimmed(
                input@,
            ).len() > 0 {
                trimmed(input@)
            } else {
                old(self).code@
            },
            final(self).password@ == if old(self).state == LoginState::AskPassword {
                trimmed(input@)
            } else {
                old(self).password@
            },
    {
        let text = trim(input);
        let state = self.state;
        self.message = silence();
        match state {
            LoginState::AskPhone => {
                if is_phone_number(text.as_str()) {
                    self.phone = text;
                    self.state = LoginState::RequestCode;
                } else {
                    self.message =
                    "Invalid phone number. Include + and the country code.".to_string();
                }
            },
            LoginState::AskRecovery => {
                if is_answer(input, "credentials") {
                    self.message =
                    "Telegram credentials cleared; retry login to enter them again".to_string();
                    self.state = LoginState::ClearCredentials;
                } else if is_answer(input, "phone") {
                    self.state = LoginState::AskPhone;
                } else {
                    self.state = LoginState::RequestCode;
                }
            },
            LoginState::AskCode => {
                if is_empty_text(text.as_str()) {
                    self.message = "Login code cannot be empty.".to_string();
                } else {
                    self.code = text;
                    self.state = LoginState::SignIn;
                }
            },
            LoginState::AskPassword => {
                self.password = text;
                self.state = LoginState::CheckPassword;
            },
            _ => {},
        }
    }

    /// Takes what came of a request for a code: nothing, or an error.
    pub fn code_requested(&mut self, error: Option<&str>)
        ensures
            final(self).phone == old(self).phone,
            final(self).code == old(self).code,
            final(self).password == old(self).password,
            final(self).state == if old(self).state != LoginState::RequestCode {
                old(self).state
            } else if error is None {
                LoginState::AskCode
            } else {
                LoginState::AskRecovery
            },
            final(self).message@ == if old(self).state == LoginState::RequestCode && error is Some {
                "Could not request a login code: "@ + error->0@
            } else {
                seq![]
            },
    {
        self.message = silence();
        if self.state != LoginState::RequestCode {
            return;
        }
        match error {
            None => {
                self.state = LoginState::AskCode;
            },
            Some(error) => {
                let mut message = "Could not request a login code: ".to_string();
                message.append(error);
                self.message = message;
                self.state = LoginState::AskRecovery;
            },
        }
    }

    /// Takes the reply to a code or a password.
    pub fn replied(&mut self, reply: SignInReply)
        ensures
            final(self).phone == old(self).phone,
            final(self).code == old(self).code,
            final(self).password == old(self).password,
            final(self).state == replied_state(old(self).state, reply),
            final(self).message@ == replied_message(old(self).state, reply),
    {
        let state = self.state;
        self.message = silence();
        if state != LoginState::SignIn && state != LoginState::CheckPassword {
            return;
        }
        match reply {
            SignInReply::Accepted => {
                self.state = LoginState::Done;
            },
            SignInReply::InvalidCode => {
                if state == LoginState::SignIn {
                    self.message = "Invalid login code. Try again.".to_string();
                    self.state = LoginState::AskCode;
                } else {
                    self.message = login_failure("invalid code");
                    self.state = LoginState::AskPhone;
                }
            },
            SignInReply::PasswordRequired => {
                if state == LoginState::SignIn {
                    self.state = LoginState::AskPassword;
                } else {
                    self.message = login_failure("password required");
                    self.state = LoginState::AskPhone;
                }
            },
            SignInReply::InvalidPassword => {
                if state == LoginState::CheckPassword {
                    self.message = "Invalid two-step password. Try again.".to_string();
                    self.state = LoginState::AskPassword;
                } else {
                    self.message = login_failure("invalid password");
                    self.state = LoginState::AskPhone;
                }
            },
            SignInReply::Failed(error) => {
                self.message = login_failure(error.as_str());
                self.state = LoginState::AskPhone;
            },
        }
    }
}

/// An account is ready only after a code or a password was accepted.
pub proof fn only_acceptance_ends_a_login(state: LoginState, reply: SignInReply, input: Seq<char>)
    requires
        state != LoginState::Done,
    ensures
        typed_state(state, input) != LoginState::Done,
        replied_state(state, reply) == LoginState::Done <==> (state == LoginState::SignIn || state
            == LoginState::CheckPassword) && reply is Accepted,
{
}

/// A phone number is a plus sign and digits.
pub proof fn phone_numbers_are_a_plus_and_digits(s: Seq<char>)
    ensures
        phone_number(s) <==> s.len() >= 2 && s[0] == '+' && forall|i: int|
            1 <= i < s.len() ==> '0' <= #[trigger] s[i] <= '9',
{
    if s.len() >= 2 && s[0] == '+' {
        let rest = s.skip(1);
        if all_digits(rest) {
            assert forall|i: int| 1 <= i < s.len() implies '0' <= #[trigger] s[i] <= '9' by {
                assert(crate::text::ascii_digit(rest[i - 1]));
            }
        }
        if forall|i: int| 1 <= i < s.len() ==> '0' <= #[trigger] s[i] <= '9' {
            assert forall|i: int| 0 <= i < rest.len() implies crate::text::ascii_digit(
                #[trigger] rest[i],
            ) by {
                assert('0' <= s[i + 1] <= '9');
            }
        }
    }
}

/// Credentials are a positive number and thirty-two hexadecimal digits.
pub proof fn credentials_are_a_number_and_a_hash(id: i32, hash: Seq<char>)
    ensures
        credentials_ok(id, hash) <==> id >= 1 && hash.len() == 32 && forall|i: int|
            0 <= i < hash.len() ==> ('0' <= #[trigger] hash[i] <= '9' || 'a' <= hash[i] <= 'f' || 'A'
                <= hash[i] <= 'F'),
{
    if all_hex_digits(hash) {
        assert forall|i: int| 0 <= i < hash.len() implies ('0' <= #[trigger] hash[i] <= '9' || 'a'
            <= hash[i] <= 'f' || 'A' <= hash[i] <= 'F') by {
            assert(crate::text::ascii_hex_digit(hash[i]));
        }
    }
}

/// A word answers a question in either case of its letters, with white space
/// around it or not.
pub proof fn words_answer_in_any_case(input: Seq<char>, word: Seq<char>)
    requires
        answers(input, word),
    ensures
        trimmed(input).len() == word.len(),
        forall|i: int|
            0 <= i < word.len() ==> (#[trigger] trimmed(input)[i] == word[i] || ('A' <= trimmed(
                input,
            )[i] <= 'Z' && (trimmed(input)[i] as u32) + 32 == word[i] as u32) || ('A' <= word[i]
                <= 'Z' && (word[i] as u32) + 32 == trimmed(input)[i] as u32)),
{
    let t = trimmed(input);
    assert(ascii_lowered(t).len() == t.len() && ascii_lowered(word).len() == word.len());
    assert forall|i: int| 0 <= i < word.len() implies (#[trigger] t[i] == word[i] || ('A' <= t[i]
        <= 'Z' && (t[i] as u32) + 32 == word[i] as u32) || ('A' <= word[i] <= 'Z' && (word[i] as u32)
        + 32 == t[i] as u32)) by {
        assert(ascii_lowered(t)[i] == ascii_lowered(word)[i]);
    }
}

/// A login that goes well: the phone number, the code, and the password where one
/// is asked for.
pub proof fn logins_go_from_phone_to_code_to_password(
    phone: Seq<char>,
    code: Seq<char>,
    password: Seq<char>,
)
    requires
        phone_number(trimmed(phone)),
        trimmed(code).len() > 0,
    ensures
        typed_state(LoginState::AskPhone, phone) == LoginState::RequestCode,
        typed_state(LoginState::AskCode, code) == LoginState::SignIn,
        replied_state(LoginState::SignIn, SignInReply::Accepted) == LoginState::Done,
        replied_state(LoginState::SignIn, SignInReply::PasswordRequired) == LoginState::AskPassword,
        typed_state(LoginState::AskPassword, password) == LoginState::CheckPassword,
        replied_state(LoginState::CheckPassword, SignInReply::Accepted) == LoginState::Done,
{
}

/// What is wrong is asked for again: the number, the code and the password each
/// on its own, and everything from the number on after another failure.
pub proof fn wrong_answers_are_asked_again(input: Seq<char>, error: String)
    ensures
        !phone_number(trimmed(input)) ==> typed_state(LoginState::AskPhone, input)
            == LoginState::AskPhone,
        trimmed(input).len() == 0 ==> typed_state(LoginState::AskCode, input)
            == LoginState::AskCode,
        replied_state(LoginState::SignIn, SignInReply::InvalidCode) == LoginState::AskCode,
        replied_state(LoginState::CheckPassword, SignInReply::InvalidPassword)
            == LoginState::AskPassword,
        replied_state(LoginState::SignIn, SignInReply::Failed(error)) == LoginState::AskPhone,
        replied_state(LoginState::CheckPassword, SignInReply::Failed(error))
            == LoginState::AskPhone,
{
}

/// After a failed request the code is requested again, unless the credentials or
/// the phone number are to be entered anew.
pub proof fn failed_requests_are_tried_again(input: Seq<char>)
    ensures
        typed_state(LoginState::AskRecovery, "credentials"@) == LoginState::ClearCredentials,
        typed_state(LoginState::AskRecovery, "phone"@) == LoginState::AskPhone,
        !answers(input, "credentials"@) && !answers(input, "phone"@) ==> typed_state(
            LoginState::AskRecovery,
            input,
        ) == LoginState::RequestCode,
{
    reveal_strlit("credentials");
    reveal_strlit("phone");
    crate::text::lemma_trimmed_fixed("credentials"@);
    crate::text::lemma_trimmed_fixed("phone"@);
    assert(ascii_lowered("phone"@).len() == 5 && ascii_lowered("credentials"@).len() == 11);
}

} // verus!
