//! Who may use the control interface: whoever shows the secret.

use crate::text;
use vstd::prelude::*;
use vstd::utf8::{encode_utf8, encode_utf8_decode_utf8};

verus! {

/// The environment variable that holds the secret.
pub const ENV_VAR: &'static str = "KAIC_CONTROL_TOKEN";

/// How many characters a secret has at least.
pub const MIN_LEN: usize = 16;

/// The secret. It is not shown to anybody, not even in a log.
pub struct ControlToken {
    secret: String,
}

/// Why there is no secret where the variable is not set.
pub const MISSING_SECRET: &'static str = "переменная KAIC_CONTROL_TOKEN не задана. Control Center API не поднимается без секрета: без него любая страница, открытая в браузере, ставит задачи от вашего имени. Задайте её так же, как TELOXIDE_TOKEN, например:\n    $env:KAIC_CONTROL_TOKEN = \"<не менее 16 символов>\"";

/// Why a secret is refused.
pub open spec fn too_short(len: nat) -> Seq<char> {
    "KAIC_CONTROL_TOKEN короче 16 символов ("@ + text::decimal(len)
        + " символов). Короткий секрет перебирается локально быстрее, чем это будет замечено"@
}

/// Whether a header shows a secret: the scheme, whatever the size of its letters,
/// a space, and the secret, with nothing but white space around it.
pub open spec fn shows(secret: Seq<char>, header: Option<Seq<char>>) -> bool {
    match header {
        None => false,
        Some(value) => match text::split_at_first(value, ' ') {
            None => false,
            Some((scheme, rest)) => text::alike(scheme, "bearer"@) && text::trimmed(rest) == secret,
        },
    }
}

/// What a request is answered that does not show the secret.
pub struct Unauthorized {
    pub status: u16,
    /// The value of the `WWW-Authenticate` header.
    pub challenge: &'static str,
    pub body: &'static str,
}

/// The view of a header, where there is one.
pub open spec fn header_view(header: Option<&str>) -> Option<Seq<char>> {
    match header {
        Some(h) => Some(h@),
        None => None,
    }
}

impl ControlToken {
    /// The secret.
    pub closed spec fn secret(&self) -> Seq<char> {
        self.secret@
    }

    #[verifier::type_invariant]
    spec fn long_enough(self) -> bool {
        self.secret@.len() >= MIN_LEN
    }

    /// Takes the secret from the value of the environment variable. There is no way
    /// to do without one.
    pub fn from_env(value: Option<String>) -> (r: Result<ControlToken, String>)
        ensures
            match value {
                None => r matches Err(e) && e@ == MISSING_SECRET@,
                Some(raw) => {
                    let len = text::trimmed(raw@).len();
                    if len >= MIN_LEN {
                        r matches Ok(t) && t.secret() == text::trimmed(raw@)
                    } else {
                        r matches Err(e) && e@ == too_short(len)
                    }
                },
            },
    {
        match value {
            None => Err(String::from_str(MISSING_SECRET)),
            Some(raw) => Self::from_raw(raw),
        }
    }

    /// Makes a secret of a text, without the white space around it, if that is long
    /// enough.
    pub fn from_raw(raw: String) -> (r: Result<ControlToken, String>)
        ensures
            r is Ok <==> text::trimmed(raw@).len() >= MIN_LEN,
            r matches Ok(t) ==> t.secret() == text::trimmed(raw@),
            r matches Err(e) ==> e@ == too_short(text::trimmed(raw@).len()),
    {
        let secret = text::trim(raw.as_str());
        let len: usize = text::chars_of(secret.as_str()).len();
        if len < MIN_LEN {
            let mut e = String::from_str("KAIC_CONTROL_TOKEN короче 16 символов (");
            e.append(text::show(len as u64).as_str());
            e.append(
                " символов). Короткий секрет перебирается локально быстрее, чем это будет замечено",
            );
            return Err(e);
        }
        Ok(ControlToken { secret })
    }

    /// How the secret appears in a log: by its length, which is never less than
    /// the least one.
    pub fn debug(&self) -> (r: String)
        ensures
            self.secret().len() >= MIN_LEN,
            r@ == "ControlToken(<"@ + text::decimal(self.secret().len()) + " символов, скрыт>)"@,
    {
        proof {
            use_type_invariant(self);
        }
        let mut s = String::from_str("ControlToken(<");
        let len: usize = text::chars_of(self.secret.as_str()).len();
        s.append(text::show(len as u64).as_str());
        s.append(" символов, скрыт>)");
        s
    }

    /// Whether a text is the secret. All bytes are looked at, whether or not an
    /// early one differs.
    pub fn matches(&self, presented: &str) -> (r: bool)
        ensures
            r == (presented@ == self.secret()),
    {
        let expected = self.secret.as_str().as_bytes();
        let got = presented.as_bytes();
        proof {
            encode_utf8_decode_utf8(presented@);
            encode_utf8_decode_utf8(self.secret@);
        }
        let mut diff: u8 = if expected.len() != got.len() {
            1
        } else {
            0
        };
        let n: usize = if expected.len() < got.len() {
            got.len()
        } else {
            expected.len()
        };
        let mut i: usize = 0;
        while i < n
            invariant
                expected@ == encode_utf8(self.secret@),
                got@ == encode_utf8(presented@),
                expected@.len() <= n,
                got@.len() <= n,
                i <= n,
                diff == 0 ==> expected@.len() == got@.len(),
                diff == 0 ==> forall|k: int|
                    0 <= k < i && k < got@.len() ==> #[trigger] expected@[k] == got@[k],
                diff != 0 ==> expected@ != got@,
            decreases n - i,
        {
            let a: u8 = if i < expected.len() {
                expected[i]
            } else {
                0
            };
            let b: u8 = if i < got.len() {
                got[i]
            } else {
                0
            };
            let step: u8 = a ^ b;
            let sum: u8 = diff | step;
            assert(step == 0 <==> a == b) by (bit_vector)
                requires
                    step == a ^ b,
            ;
            assert(sum == 0 <==> (diff == 0 && step == 0)) by (bit_vector)
                requires
                    sum == diff | step,
            ;
            diff = sum;
            i = i + 1;
        }
        proof {
            if diff == 0 {
                assert(expected@ =~= got@);
            }
        }
        diff == 0
    }

    /// Whether a request shows the secret, by its `Authorization` header.
    pub fn accepts(&self, header_value: Option<&str>) -> (r: bool)
        ensures
            r == shows(self.secret(), header_view(header_value)),
    {
        let value = match header_value {
            Some(value) => value,
            None => {
                return false;
            },
        };
        match text::split_once(value, ' ') {
            None => false,
            Some((scheme, rest)) => {
                if !text::same_letters(scheme.as_str(), "bearer") {
                    return false;
                }
                let presented = text::trim(rest.as_str());
                self.matches(presented.as_str())
            },
        }
    }

    /// Lets a request pass that shows the secret; gives the answer for any other.
    pub fn require_token(&self, header_value: Option<&str>) -> (r: Option<Unauthorized>)
        ensures
            r is None <==> shows(self.secret(), header_view(header_value)),
            r matches Some(u) ==> {
                &&& u.status == 401
                &&& u.challenge@ == "Bearer realm=\"kaic-control-center\""@
                &&& u.body@
                    == "Control Center API требует Authorization: Bearer <KAIC_CONTROL_TOKEN>"@
            },
    {
        if self.accepts(header_value) {
            None
        } else {
            Some(
                Unauthorized {
                    status: 401,
                    challenge: "Bearer realm=\"kaic-control-center\"",
                    body: "Control Center API требует Authorization: Bearer <KAIC_CONTROL_TOKEN>",
                },
            )
        }
    }
}

/// A secret made of a text is shown by itself behind the scheme, and nothing else
/// is taken for it.
pub proof fn law_only_the_secret_is_accepted(raw: Seq<char>, presented: Seq<char>)
    ensures
        shows(text::trimmed(raw), Some("Bearer "@ + presented)) <==> text::trimmed(presented)
            == text::trimmed(raw),
        shows(text::trimmed(raw), Some("Bearer "@ + text::trimmed(raw))),
{
    lemma_scheme(text::trimmed(raw), presented);
    lemma_scheme(text::trimmed(raw), text::trimmed(raw));
    text::lemma_trimmed_twice(raw);
}

proof fn lemma_scheme(secret: Seq<char>, presented: Seq<char>)
    ensures
        shows(secret, Some("Bearer "@ + presented)) <==> text::trimmed(presented) == secret,
{
    reveal_strlit("Bearer ");
    reveal_strlit("bearer");
    let value = "Bearer "@ + presented;
    assert(value[6] == ' ');
    text::lemma_first_place(value, ' ', 6);
    assert(value.skip(7) =~= presented);
    let scheme = value.take(6);
    assert(text::ascii_lower('B') == 'b');
    assert(text::alike(scheme, "bearer"@));
}

/// Without a header, or without a scheme before the secret, nobody is let in.
pub proof fn law_bare_secret_is_refused(secret: Seq<char>, value: Seq<char>)
    ensures
        !shows(secret, None),
        !value.contains(' ') ==> !shows(secret, Some(value)),
{
    text::lemma_first_of(value, ' ');
    let i = text::first_of(value, ' ');
    if i < value.len() {
        assert(value[i] == ' ');
        assert(value.contains(' '));
    }
}

/// A header shows a secret exactly if it is the scheme, in letters of whatever size, a
/// space, and the secret with nothing but white space around it.
pub proof fn law_the_scheme_stands_before_the_secret(
    secret: Seq<char>,
    scheme: Seq<char>,
    rest: Seq<char>,
)
    requires
        forall|i: int| 0 <= i < scheme.len() ==> #[trigger] scheme[i] != ' ',
    ensures
        shows(secret, Some(scheme.push(' ') + rest)) <==> {
            &&& scheme.len() == 6
            &&& scheme[0] == 'b' || scheme[0] == 'B'
            &&& scheme[1] == 'e' || scheme[1] == 'E'
            &&& scheme[2] == 'a' || scheme[2] == 'A'
            &&& scheme[3] == 'r' || scheme[3] == 'R'
            &&& scheme[4] == 'e' || scheme[4] == 'E'
            &&& scheme[5] == 'r' || scheme[5] == 'R'
            &&& text::trimmed(rest) == secret
        },
{
    reveal_strlit("bearer");
    let value = scheme.push(' ') + rest;
    text::lemma_first_place(value, ' ', scheme.len() as int);
    assert(value.take(scheme.len() as int) =~= scheme);
    assert(value.skip(scheme.len() as int + 1) =~= rest);
    let b = "bearer"@;
    if text::alike(scheme, b) {
        assert(text::ascii_lower(scheme[0]) == text::ascii_lower(b[0]));
        assert(text::ascii_lower(scheme[1]) == text::ascii_lower(b[1]));
        assert(text::ascii_lower(scheme[2]) == text::ascii_lower(b[2]));
        assert(text::ascii_lower(scheme[3]) == text::ascii_lower(b[3]));
        assert(text::ascii_lower(scheme[4]) == text::ascii_lower(b[4]));
        assert(text::ascii_lower(scheme[5]) == text::ascii_lower(b[5]));
    }
}

/// A secret that is too short is refused with its length.
pub proof fn law_a_refusal_tells_the_length(len: nat)
    ensures
        text::occurs("("@ + text::decimal(len) + " символов)"@, too_short(len)),
{
    reveal_strlit("KAIC_CONTROL_TOKEN короче 16 символов (");
    reveal_strlit("(");
    reveal_strlit(" символов). Короткий секрет перебирается локально быстрее, чем это будет замечено");
    reveal_strlit(" символов)");
    let s = too_short(len);
    let x = "("@ + text::decimal(len) + " символов)"@;
    let at = "KAIC_CONTROL_TOKEN короче 16 символов ("@.len() - 1;
    assert(x =~= s.skip(at).subrange(0, x.len() as int));
    assert(x.is_prefix_of(s.skip(at)));
}

} // verus!
