//! Behaviour profiles: what the fake service says back.
//!
//! A profile is an optional connect-time banner and an ordered rule list. The
//! first matching rule wins. No match means say nothing, which is the right
//! default for a pure vacuum.
pub mod compile;
pub mod escape;
pub mod hex;
pub mod laws;
pub mod meaning;

pub use compile::{load, resolve, Contents, LoadError, Place, RespondError};
pub use escape::{unescape, EscapeFault};
pub use hex::{aligned_hex, parse_hex, HexError};

use crate::bytes;
use crate::bytes::{bytes_at, copy_of, find};
use crate::dns::Answer;
use crate::text;
use crate::text::lower_bytes_of;
use vstd::prelude::*;
use vstd::utf8::*;

verus! {

/// A profile as it is written down.
#[derive(Debug)]
pub struct Profile {
    pub name: String,
    pub description: String,
    /// sent as soon as a peer shows up, before reading anything. for udp this
    /// fires on the first datagram from a new peer
    pub on_connect: Option<Respond>,
    pub rules: Vec<Rule>,
}

/// A rule as it is written down.
#[derive(Debug)]
pub struct Rule {
    pub name: Option<String>,
    pub matcher: Match,
    pub respond: Option<Respond>,
}

/// When a rule applies: every field that is present must hold. An empty matcher
/// matches everything, same as `any = true`.
#[derive(Debug)]
pub struct Match {
    pub any: Option<bool>,
    pub starts_with: Option<String>,
    pub contains: Option<String>,
    pub ends_with: Option<String>,
    pub prefix_hex: Option<String>,
    pub contains_hex: Option<String>,
    pub min_len: Option<usize>,
    pub max_len: Option<usize>,
    pub len: Option<usize>,
    /// only match on the first message of a connection or peer
    pub first_only: Option<bool>,
    /// match regardless of ascii case (applies to the string matchers)
    pub ignore_case: bool,
}

/// A response as it is written down.
#[derive(Debug)]
pub struct Respond {
    /// literal text with escapes
    pub text: Option<String>,
    /// hex bytes
    pub hex: Option<String>,
    /// a file whose contents are sent, resolved relative to the profile
    pub file: Option<String>,
    /// send back exactly what was received
    pub echo: bool,
    /// answer a dns query with these addresses
    pub dns: Option<Answer>,
    /// wait this long before sending
    pub delay_ms: u64,
    /// repeat the payload this often (default 1)
    pub repeat: Option<usize>,
    /// hang up after sending
    pub close: bool,
}

/// A response flattened into bytes, resolved once at load time.
#[derive(Debug)]
pub struct Action {
    pub payload: Vec<u8>,
    pub echo: bool,
    pub dns: Option<Answer>,
    pub delay_ms: u64,
    pub close: bool,
}

/// The load-time compiled form of a profile.
#[derive(Debug)]
pub struct Compiled {
    pub name: String,
    pub description: String,
    pub on_connect: Option<Action>,
    pub rules: Vec<CompiledRule>,
}

/// The load-time compiled form of a rule.
#[derive(Debug)]
pub struct CompiledRule {
    pub name: String,
    pub matcher: Match,
    pub action: Action,
}

impl Default for Match {
    fn default() -> (m: Self)
        ensures
            m.is_empty(),
    {
        Match {
            any: None,
            starts_with: None,
            contains: None,
            ends_with: None,
            prefix_hex: None,
            contains_hex: None,
            min_len: None,
            max_len: None,
            len: None,
            first_only: None,
            ignore_case: false,
        }
    }
}

impl Default for Respond {
    fn default() -> (r: Self)
        ensures
            r == (Respond {
                text: None,
                hex: None,
                file: None,
                echo: false,
                dns: None,
                delay_ms: 0,
                repeat: None,
                close: false,
            }),
    {
        Respond {
            text: None,
            hex: None,
            file: None,
            echo: false,
            dns: None,
            delay_ms: 0,
            repeat: None,
            close: false,
        }
    }
}

/// What an action does.
pub struct ActionModel {
    pub payload: Seq<u8>,
    pub echo: bool,
    pub dns: Option<Answer>,
    pub delay_ms: u64,
    pub close: bool,
}

impl View for Action {
    type V = ActionModel;

    open spec fn view(&self) -> ActionModel {
        ActionModel {
            payload: self.payload@,
            echo: self.echo,
            dns: self.dns,
            delay_ms: self.delay_ms,
            close: self.close,
        }
    }
}

impl ActionModel {
    /// An action that sends nothing.
    pub open spec fn silent(self) -> bool {
        self.payload.len() == 0 && !self.echo && self.dns is None
    }

    /// An action whose reply depends on what it replies to.
    pub open spec fn mirrors(self) -> bool {
        self.echo || self.dns is Some
    }
}

/// What a rule without a response does: nothing.
pub open spec fn no_action() -> ActionModel {
    ActionModel { payload: Seq::empty(), echo: false, dns: None, delay_ms: 0, close: false }
}

impl Default for Action {
    fn default() -> (a: Self)
        ensures
            a@ == no_action(),
    {
        let a = Action {
            payload: Vec::new(),
            echo: false,
            dns: None,
            delay_ms: 0,
            close: false,
        };
        assert(a.payload@ =~= Seq::empty());
        a
    }
}

impl Clone for Action {
    fn clone(&self) -> (a: Self)
        ensures
            a@ == self@,
    {
        Action {
            payload: copy_of(self.payload.as_slice()),
            echo: self.echo,
            dns: self.dns,
            delay_ms: self.delay_ms,
            close: self.close,
        }
    }
}

impl Action {
    /// Whether nothing is ever sent.
    pub fn is_silent(&self) -> (b: bool)
        ensures
            b == self@.silent(),
    {
        self.payload.len() == 0 && !self.echo && self.dns.is_none()
    }
}

// ------------------------------------------------------------- matching

impl Match {
    /// A matcher without any condition.
    pub open spec fn is_empty(self) -> bool {
        self == (Match {
            any: None,
            starts_with: None,
            contains: None,
            ends_with: None,
            prefix_hex: None,
            contains_hex: None,
            min_len: None,
            max_len: None,
            len: None,
            first_only: None,
            ignore_case: false,
        })
    }

    /// Bytes as the string matchers compare them.
    pub open spec fn fold(self, b: Seq<u8>) -> Seq<u8> {
        if self.ignore_case {
            text::lower_bytes(b)
        } else {
            b
        }
    }

    /// Whether every condition holds but for those on hex bytes.
    pub open spec fn holds_in_text(self, data: Seq<u8>, first: bool) -> bool {
        &&& self.any != Some(false)
        &&& self.first_only == Some(true) ==> first
        &&& self.len matches Some(n) ==> data.len() == n
        &&& self.min_len matches Some(n) ==> data.len() >= n
        &&& self.max_len matches Some(n) ==> data.len() <= n
        &&& self.starts_with matches Some(s) ==> bytes::has_prefix(
            self.fold(data),
            self.fold(encode_utf8(s@)),
        )
        &&& self.ends_with matches Some(s) ==> bytes::has_suffix(
            self.fold(data),
            self.fold(encode_utf8(s@)),
        )
        &&& self.contains matches Some(s) ==> bytes::found_at(
            self.fold(data),
            self.fold(encode_utf8(s@)),
        ) is Some
    }

    /// Whether the message begins as it should.
    pub open spec fn holds_at_front(self, data: Seq<u8>) -> bool {
        self.prefix_hex matches Some(h) ==> (hex::hex_of(h@) matches Ok(needle)
            && bytes::has_prefix(data, needle))
    }

    /// Whether every condition holds. `any = false` matches nothing, a needle
    /// that is empty is contained nowhere, and hex that cannot be read matches
    /// nothing.
    pub open spec fn holds(self, data: Seq<u8>, first: bool) -> bool {
        &&& self.holds_in_text(data, first)
        &&& self.holds_at_front(data)
        &&& self.contains_hex matches Some(h) ==> (hex::hex_of(h@) matches Ok(needle)
            && bytes::found_at(data, needle) is Some)
    }

    /// The hex fields, as far as the message reaches them, can be cut into bytes.
    pub open spec fn ready(self, data: Seq<u8>, first: bool) -> bool {
        self.holds_in_text(data, first) ==> {
            &&& self.prefix_hex matches Some(h) ==> hex::hex_aligns(h@)
            &&& self.holds_at_front(data) ==> (self.contains_hex matches Some(h)
                ==> hex::hex_aligns(h@))
        }
    }

    fn folded(&self, b: &[u8]) -> (out: Vec<u8>)
        ensures
            out@ == self.fold(b@),
    {
        if self.ignore_case {
            lower_bytes_of(b)
        } else {
            copy_of(b)
        }
    }

    fn matches_text(&self, data: &[u8], first: bool) -> (b: bool)
        ensures
            b == self.holds_in_text(data@, first),
    {
        if let Some(any) = self.any {
            if !any {
                return false;
            }
        }
        if let Some(first_only) = self.first_only {
            if first_only && !first {
                return false;
            }
        }
        if let Some(n) = self.len {
            if data.len() != n {
                return false;
            }
        }
        if let Some(n) = self.min_len {
            if data.len() < n {
                return false;
            }
        }
        if let Some(n) = self.max_len {
            if data.len() > n {
                return false;
            }
        }
        let hay = self.folded(data);
        if let Some(s) = &self.starts_with {
            let needle = self.folded(s.as_str().as_bytes());
            if !bytes_at(hay.as_slice(), needle.as_slice(), 0) {
                return false;
            }
        }
        if let Some(s) = &self.ends_with {
            let needle = self.folded(s.as_str().as_bytes());
            if needle.len() > hay.len() || !bytes_at(
                hay.as_slice(),
                needle.as_slice(),
                hay.len() - needle.len(),
            ) {
                return false;
            }
        }
        if let Some(s) = &self.contains {
            let needle = self.folded(s.as_str().as_bytes());
            if find(hay.as_slice(), needle.as_slice()).is_none() {
                return false;
            }
        }
        true
    }

    fn matches_front(&self, data: &[u8]) -> (b: bool)
        requires
            self.prefix_hex matches Some(h) ==> hex::hex_aligns(h@),
        ensures
            b == self.holds_at_front(data@),
    {
        match &self.prefix_hex {
            Some(h) => match parse_hex(h.as_str()) {
                Ok(needle) => bytes_at(data, needle.as_slice(), 0),
                Err(_) => false,
            },
            None => true,
        }
    }

    /// Whether the hex fields, as far as the message reaches them, can be cut into
    /// bytes.
    pub fn is_ready(&self, data: &[u8], first: bool) -> (b: bool)
        ensures
            b == self.ready(data@, first),
    {
        if !self.matches_text(data, first) {
            return true;
        }
        if let Some(h) = &self.prefix_hex {
            if !aligned_hex(h.as_str()) {
                return false;
            }
        }
        if !self.matches_front(data) {
            return true;
        }
        match &self.contains_hex {
            Some(h) => aligned_hex(h.as_str()),
            None => true,
        }
    }

    /// Whether a message matches. The string matchers are compared against raw
    /// bytes, so they work on binary protocols too.
    pub fn matches(&self, data: &[u8], first: bool) -> (b: bool)
        requires
            self.ready(data@, first),
        ensures
            b == self.holds(data@, first),
    {
        if !self.matches_text(data, first) || !self.matches_front(data) {
            return false;
        }
        match &self.contains_hex {
            Some(h) => match parse_hex(h.as_str()) {
                Ok(needle) => find(data, needle.as_slice()).is_some(),
                Err(_) => false,
            },
            None => true,
        }
    }
}

/// The first rule from the `i`-th on that matches.
pub open spec fn match_from(rules: Seq<CompiledRule>, data: Seq<u8>, first: bool, i: int) -> Option<
    int,
>
    decreases rules.len() - i,
{
    if i < 0 || i >= rules.len() {
        None
    } else if rules[i].matcher.holds(data, first) {
        Some(i)
    } else {
        match_from(rules, data, first, i + 1)
    }
}

impl Compiled {
    /// The hex fields, as far as the message reaches them, can be cut into bytes:
    /// those of every rule that no earlier rule spares.
    pub open spec fn ready(self, data: Seq<u8>, first: bool) -> bool {
        forall|i: int|
            0 <= i < self.rules@.len() && (forall|j: int|
                0 <= j < i ==> !(#[trigger] self.rules@[j]).matcher.holds(data, first)) ==> (
            #[trigger] self.rules@[i]).matcher.ready(data, first)
    }

    /// The rule that answers a message.
    pub open spec fn rule_for(self, data: Seq<u8>, first: bool) -> Option<int> {
        match_from(self.rules@, data, first, 0)
    }

    /// The actions that may be taken: that of the banner and those of the rules.
    pub open spec fn may_take(self, a: ActionModel) -> bool {
        ||| (self.on_connect matches Some(banner) && a == banner@)
        ||| exists|i: int| 0 <= i < self.rules@.len() && a == (#[trigger] self.rules@[i]).action@
    }

    /// Whether the hex fields, as far as the message reaches them, can be cut into
    /// bytes.
    pub fn is_ready(&self, data: &[u8], first: bool) -> (b: bool)
        ensures
            b == self.ready(data@, first),
    {
        let mut i: usize = 0;
        while i < self.rules.len()
            invariant
                i <= self.rules.len(),
                forall|j: int|
                    0 <= j < i ==> (#[trigger] self.rules@[j]).matcher.ready(data@, first)
                        && !self.rules@[j].matcher.holds(data@, first),
            decreases self.rules.len() - i,
        {
            let matcher = &self.rules[i].matcher;
            if !matcher.is_ready(data, first) {
                assert(!self.rules@[i as int].matcher.ready(data@, first));
                return false;
            }
            if matcher.matches(data, first) {
                assert(self.rules@[i as int].matcher.holds(data@, first));
                return true;
            }
            i += 1;
        }
        true
    }

    /// Walks the rules in order; the first match wins.
    pub fn eval(&self, data: &[u8], first: bool) -> (hit: Option<(&str, &Action)>)
        requires
            self.ready(data@, first),
        ensures
            match hit {
                Some((name, action)) => {
                    &&& self.rule_for(data@, first) matches Some(i)
                    &&& 0 <= i < self.rules@.len()
                    &&& name@ == self.rules@[i].name@
                    &&& *action == self.rules@[i].action
                },
                None => self.rule_for(data@, first) is None,
            },
    {
        let mut i: usize = 0;
        while i < self.rules.len()
            invariant
                i <= self.rules.len(),
                self.ready(data@, first),
                forall|j: int|
                    0 <= j < i ==> !(#[trigger] self.rules@[j]).matcher.holds(data@, first),
                self.rule_for(data@, first) == match_from(self.rules@, data@, first, i as int),
            decreases self.rules.len() - i,
        {
            let rule = &self.rules[i];
            if rule.matcher.matches(data, first) {
                return Some((rule.name.as_str(), &rule.action));
            }
            i += 1;
        }
        None
    }

    /// Whether any action that may be taken sends something.
    pub open spec fn may_respond(self) -> bool {
        exists|a: ActionModel| #[trigger] self.may_take(a) && !a.silent()
    }

    /// Whether any message can draw an answer.
    pub fn responds(&self) -> (b: bool)
        ensures
            b == self.may_respond(),
    {
        if let Some(banner) = &self.on_connect {
            if !banner.is_silent() {
                assert(self.may_take(banner@));
                return true;
            }
        }
        let mut i: usize = 0;
        while i < self.rules.len()
            invariant
                i <= self.rules.len(),
                self.on_connect matches Some(banner) ==> banner@.silent(),
                forall|j: int| 0 <= j < i ==> (#[trigger] self.rules@[j]).action@.silent(),
            decreases self.rules.len() - i,
        {
            if !self.rules[i].action.is_silent() {
                assert(self.may_take(self.rules@[i as int].action@));
                return true;
            }
            i += 1;
        }
        false
    }

    /// The most bytes that one message can draw: the banner and the largest reply
    /// of a rule. There is no such number when a reply depends on the message.
    pub fn max_response_bytes(&self) -> (max: Option<usize>)
        ensures
            max == self.max_reply(),
    {
        let mut banner_len: usize = 0;
        if let Some(banner) = &self.on_connect {
            if banner.echo || banner.dns.is_some() {
                assert(self.may_take(banner@));
                return None;
            }
            banner_len = banner.payload.len();
        }
        let mut largest: usize = 0;
        let mut i: usize = 0;
        while i < self.rules.len()
            invariant
                i <= self.rules.len(),
                self.on_connect matches Some(banner) ==> !banner@.mirrors(),
                banner_len == self.banner_len(),
                largest == self.largest_reply(i as int),
                forall|j: int| 0 <= j < i ==> !(#[trigger] self.rules@[j]).action@.mirrors(),
            decreases self.rules.len() - i,
        {
            let action = &self.rules[i].action;
            if action.echo || action.dns.is_some() {
                assert(self.may_take(self.rules@[i as int].action@));
                return None;
            }
            if action.payload.len() > largest {
                largest = action.payload.len();
            }
            i += 1;
        }
        Some(banner_len.saturating_add(largest))
    }

    /// How much one message can draw: the banner and the largest reply of a rule, as
    /// far as a number can hold it, and nothing when some reply depends on the
    /// message.
    pub open spec fn max_reply(self) -> Option<usize> {
        let most = self.banner_len() + self.largest_reply(self.rules@.len() as int);
        if exists|a: ActionModel| #[trigger] self.may_take(a) && a.mirrors() {
            None
        } else if most <= usize::MAX {
            Some(most as usize)
        } else {
            Some(usize::MAX)
        }
    }

    /// How many bytes the banner sends.
    pub open spec fn banner_len(self) -> int {
        match self.on_connect {
            Some(banner) => banner@.payload.len() as int,
            None => 0,
        }
    }

    /// The length of the largest payload among the first `n` rules.
    pub open spec fn largest_reply(self, n: int) -> int
        decreases n,
    {
        if n <= 0 {
            0
        } else {
            let below = self.largest_reply(n - 1);
            let len = self.rules@[n - 1].action@.payload.len() as int;
            if len > below {
                len
            } else {
                below
            }
        }
    }
}

} // verus!
