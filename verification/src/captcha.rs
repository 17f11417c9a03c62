//! The login captchas handed out by the web manager: each token names a
//! code that may be shown and answered until it expires, and is answered at
//! most once. Time is a count of seconds handed in by the caller.
use vstd::prelude::*;
use crate::text::{chars_of, eq_str, string_of, trim, trim_str};
use crate::web::{captcha_answer_accepted, spec_captcha_accepts};

verus! {

broadcast use vstd::string::group_string_axioms;

/// How long a captcha may be answered, in seconds.
pub const CAPTCHA_LIFETIME_SECS: u64 = 300;

/// The second at which a captcha issued at `now` expires: five minutes
/// later, or `now` itself where that second cannot be counted.
pub open spec fn captcha_end(now: u64) -> u64 {
    if now + CAPTCHA_LIFETIME_SECS > u64::MAX {
        now
    } else {
        (now + CAPTCHA_LIFETIME_SECS) as u64
    }
}

/// The captchas a list holds: each token with its code and expiry, a later
/// entry for a token standing over an earlier one.
pub open spec fn captcha_map(s: Seq<(String, String, u64)>) -> Map<Seq<char>, (Seq<char>, u64)>
    decreases s.len(),
{
    if s.len() == 0 {
        Map::empty()
    } else {
        captcha_map(s.drop_last()).insert(s.last().0@, (s.last().1@, s.last().2))
    }
}

/// The entries of the list for other tokens, in order.
pub open spec fn without_token(s: Seq<(String, String, u64)>, token: Seq<char>) -> Seq<(String, String, u64)>
    decreases s.len(),
{
    if s.len() == 0 {
        s
    } else if s.last().0@ == token {
        without_token(s.drop_last(), token)
    } else {
        without_token(s.drop_last(), token).push(s.last())
    }
}

proof fn lemma_last_entry(s: Seq<(String, String, u64)>, token: Seq<char>, i: int)
    requires
        0 <= i < s.len(),
        s[i].0@ == token,
        forall|j: int| i < j < s.len() ==> (#[trigger] s[j]).0@ != token,
    ensures
        captcha_map(s).contains_key(token),
        captcha_map(s)[token] == (s[i].1@, s[i].2),
    decreases s.len(),
{
    if i < s.len() - 1 {
        let t = s.drop_last();
        assert forall|j: int| i < j < t.len() implies (#[trigger] t[j]).0@ != token by {
            assert(t[j] == s[j]);
        }
        lemma_last_entry(t, token, i);
    }
}

proof fn lemma_no_entry(s: Seq<(String, String, u64)>, token: Seq<char>)
    requires
        forall|j: int| 0 <= j < s.len() ==> (#[trigger] s[j]).0@ != token,
    ensures
        !captcha_map(s).contains_key(token),
    decreases s.len(),
{
    if s.len() > 0 {
        let t = s.drop_last();
        assert forall|j: int| 0 <= j < t.len() implies (#[trigger] t[j]).0@ != token by {
            assert(t[j] == s[j]);
        }
        lemma_no_entry(t, token);
    }
}

proof fn lemma_without_token(s: Seq<(String, String, u64)>, token: Seq<char>)
    ensures
        captcha_map(without_token(s, token)) == captcha_map(s).remove(token),
    decreases s.len(),
{
    if s.len() > 0 {
        let t = s.drop_last();
        lemma_without_token(t, token);
        if s.last().0@ == token {
            assert(captcha_map(s).remove(token) =~= captcha_map(t).remove(token));
        } else {
            let w = without_token(t, token).push(s.last());
            assert(w.drop_last() == without_token(t, token));
            assert(captcha_map(w) =~= captcha_map(s).remove(token));
        }
    }
}

/// The captchas handed out and not yet answered.
pub struct CaptchaStore {
    entries: Vec<(String, String, u64)>,
}

impl View for CaptchaStore {
    type V = Map<Seq<char>, (Seq<char>, u64)>;

    closed spec fn view(&self) -> Map<Seq<char>, (Seq<char>, u64)> {
        captcha_map(self.entries@)
    }
}

impl CaptchaStore {
    /// No captchas.
    pub fn new() -> (r: Self)
        ensures
            r@ == Map::<Seq<char>, (Seq<char>, u64)>::empty(),
    {
        CaptchaStore { entries: Vec::new() }
    }

    /// The place of the last entry for the token.
    fn find(&self, token: &Vec<char>) -> (r: Option<usize>)
        ensures
            match r {
                Some(i) => {
                    &&& i < self.entries@.len()
                    &&& captcha_map(self.entries@).contains_key(token@)
                    &&& captcha_map(self.entries@)[token@] == (self.entries@[i as int].1@, self.entries@[i as int].2)
                },
                None => !captcha_map(self.entries@).contains_key(token@),
            },
    {
        let ghost s = self.entries@;
        let mut i: usize = self.entries.len();
        while i > 0
            invariant
                i <= s.len(),
                s == self.entries@,
                forall|j: int| i <= j < s.len() ==> (#[trigger] s[j]).0@ != token@,
            decreases i,
        {
            if eq_str(token, self.entries[i - 1].0.as_str()) {
                proof {
                    lemma_last_entry(s, token@, i - 1);
                }
                return Some(i - 1);
            }
            i -= 1;
        }
        proof {
            lemma_no_entry(s, token@);
        }
        None
    }

    /// Drops the entries of a token.
    fn remove_token(&mut self, token: &Vec<char>)
        ensures
            final(self)@ == old(self)@.remove(token@),
    {
        let ghost s = self.entries@;
        let mut kept: Vec<(String, String, u64)> = Vec::new();
        let mut i: usize = 0;
        assert(s.take(0) =~= Seq::<(String, String, u64)>::empty());
        while i < self.entries.len()
            invariant
                i <= s.len(),
                s == self.entries@,
                kept@ == without_token(s.take(i as int), token@),
            decreases s.len() - i,
        {
            assert(s.take(i + 1).drop_last() == s.take(i as int));
            assert(s.take(i + 1).last() == s[i as int]);
            let e = &self.entries[i];
            if !eq_str(token, e.0.as_str()) {
                kept.push((e.0.clone(), e.1.clone(), e.2));
            }
            i += 1;
        }
        assert(s.take(s.len() as int) == s);
        proof {
            lemma_without_token(s, token@);
        }
        self.entries = kept;
    }

    /// Hands out a captcha: the token names the code until five minutes
    /// from `now` (see [`captcha_end`]).
    pub fn issue(&mut self, token: String, code: String, now: u64)
        ensures
            final(self)@ == old(self)@.insert(token@, (code@, captcha_end(now))),
    {
        let end: u64 = if now > u64::MAX - CAPTCHA_LIFETIME_SECS {
            now
        } else {
            now + CAPTCHA_LIFETIME_SECS
        };
        let ghost s = self.entries@;
        self.entries.push((token, code, end));
        assert(self.entries@.drop_last() == s);
    }

    /// The code to draw for a token: none for an unknown token, and none
    /// for an expired one, which is dropped.
    pub fn code_to_show(&mut self, token: &str, now: u64) -> (r: Option<String>)
        ensures
            old(self)@.contains_key(token@) && old(self)@[token@].1 > now ==> (r matches Some(c) && c@
                == old(self)@[token@].0) && final(self)@ == old(self)@,
            old(self)@.contains_key(token@) && old(self)@[token@].1 <= now ==> r is None && final(self)@
                == old(self)@.remove(token@),
            !old(self)@.contains_key(token@) ==> r is None && final(self)@ == old(self)@,
    {
        let key = chars_of(token);
        match self.find(&key) {
            Some(i) => {
                if self.entries[i].2 > now {
                    Some(self.entries[i].1.clone())
                } else {
                    self.remove_token(&key);
                    None
                }
            },
            None => None,
        }
    }

    /// Checks a login's captcha answer. With captchas off every login
    /// passes. Otherwise the token and the answer (both trimmed) must be
    /// given; the token's captcha is then used up, and the answer passes
    /// when the captcha has not expired and the answer is its code, ASCII
    /// case ignored.
    pub fn check_answer(&mut self, open_captcha: bool, token: &str, answer: &str, now: u64) -> (r: bool)
        ensures
            (r, final(self)@) == spec_check_answer(old(self)@, open_captcha, token@, answer@, now),
    {
        if !open_captcha {
            return true;
        }
        let t = trim_str(token);
        if t.len() == 0 || trim_str(answer).len() == 0 {
            return false;
        }
        let found = self.find(&t);
        let verdict = match found {
            Some(i) => {
                let code = string_of(&chars_of(self.entries[i].1.as_str()));
                self.entries[i].2 > now && captcha_answer_accepted(code.as_str(), answer)
            },
            None => false,
        };
        self.remove_token(&t);
        verdict
    }
}

/// The verdict on a login's captcha answer and the captchas after it: see
/// [`CaptchaStore::check_answer`].
pub open spec fn spec_check_answer(
    m: Map<Seq<char>, (Seq<char>, u64)>,
    open_captcha: bool,
    token: Seq<char>,
    answer: Seq<char>,
    now: u64,
) -> (bool, Map<Seq<char>, (Seq<char>, u64)>) {
    let t = trim(token);
    if !open_captcha {
        (true, m)
    } else if t.len() == 0 || trim(answer).len() == 0 {
        (false, m)
    } else {
        (m.contains_key(t) && m[t].1 > now && spec_captcha_accepts(m[t].0, answer), m.remove(t))
    }
}

/// With captchas on, a captcha is answered at most once: once a token has
/// been checked, every later check of the same token fails, whatever the
/// answer and the time.
pub proof fn lemma_answered_once(
    m: Map<Seq<char>, (Seq<char>, u64)>,
    token: Seq<char>,
    first: Seq<char>,
    second: Seq<char>,
    now: u64,
    later: u64,
)
    requires
        trim(first).len() > 0,
    ensures
        !spec_check_answer(spec_check_answer(m, true, token, first, now).1, true, token, second, later).0,
{
}

} // verus!
