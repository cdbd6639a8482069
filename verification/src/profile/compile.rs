//! From a profile as it is written down to one that is ready to answer.
use super::escape;
use super::escape::{unescape, EscapeFault};
use super::hex;
use super::hex::{aligned_hex, parse_hex, HexError, HexFault};
use super::{Action, ActionModel, Compiled, CompiledRule, Profile, Respond, Rule};
use crate::bytes::push_bytes;
use crate::text;
use crate::text::{push_decimal, quote};
use vstd::prelude::*;

verus! {

/// What the files named by a profile hold, as far as they could be read.
#[derive(Debug)]
pub struct Contents {
    /// what the file of the banner holds
    pub on_connect: Option<Vec<u8>>,
    /// what the file of each rule holds, in the order of the rules
    pub rules: Vec<Option<Vec<u8>>>,
}

/// Why a response cannot be compiled.
pub enum RespondFault {
    Text(EscapeFault),
    Hex(HexFault),
    /// its file could not be read
    File,
}

/// Why a response cannot be compiled.
#[derive(Debug)]
pub enum RespondError {
    Text(EscapeFault),
    Hex(HexError),
    File,
}

impl View for RespondError {
    type V = RespondFault;

    open spec fn view(&self) -> RespondFault {
        match self {
            RespondError::Text(fault) => RespondFault::Text(*fault),
            RespondError::Hex(e) => RespondFault::Hex(e@),
            RespondError::File => RespondFault::File,
        }
    }
}

/// Why a profile cannot be compiled.
#[derive(Debug)]
pub struct LoadError {
    /// the rule whose response is at fault; none where the banner is
    pub rule: Option<usize>,
    pub fault: RespondError,
}

/// Some bytes, over and over.
pub open spec fn repeated(s: Seq<u8>, n: nat) -> Seq<u8>
    decreases n,
{
    if n == 0 {
        Seq::empty()
    } else {
        repeated(s, (n - 1) as nat) + s
    }
}

proof fn nothing_repeats(s: Seq<u8>, n: nat)
    requires
        s.len() == 0,
    ensures
        repeated(s, n) == repeated(s, 0),
    decreases n,
{
    if n > 0 {
        nothing_repeats(s, (n - 1) as nat);
        assert(repeated(s, n) =~= repeated(s, 0));
    }
}

/// What a file holds, where it was read.
pub open spec fn held(file: Option<Vec<u8>>) -> Option<Seq<u8>> {
    match file {
        Some(b) => Some(b@),
        None => None,
    }
}

impl Respond {
    /// What the text stands for.
    pub open spec fn text_bytes(self) -> Result<Seq<u8>, EscapeFault> {
        match self.text {
            Some(t) => escape::unescape_of(t@),
            None => Ok(Seq::empty()),
        }
    }

    /// What the hex digits stand for.
    pub open spec fn hex_bytes(self) -> Result<Seq<u8>, HexFault> {
        match self.hex {
            Some(h) => hex::hex_of(h@),
            None => Ok(Seq::empty()),
        }
    }

    /// What the file holds.
    pub open spec fn file_bytes(self, file: Option<Seq<u8>>) -> Option<Seq<u8>> {
        if self.file is None {
            Some(Seq::empty())
        } else {
            file
        }
    }

    /// The text, the hex bytes and the file, in that order.
    pub open spec fn body(self, file: Option<Seq<u8>>) -> Result<Seq<u8>, RespondFault> {
        match self.text_bytes() {
            Err(fault) => Err(RespondFault::Text(fault)),
            Ok(t) => match self.hex_bytes() {
                Err(fault) => Err(RespondFault::Hex(fault)),
                Ok(h) => match self.file_bytes(file) {
                    None => Err(RespondFault::File),
                    Some(f) => Ok(t + h + f),
                },
            },
        }
    }

    /// How often the body is sent.
    pub open spec fn times(self) -> nat {
        match self.repeat {
            Some(n) => n as nat,
            None => 1,
        }
    }

    /// What the response does once it is compiled.
    pub open spec fn action_of(self, file: Option<Seq<u8>>) -> Result<ActionModel, RespondFault> {
        match self.body(file) {
            Err(fault) => Err(fault),
            Ok(body) => Ok(
                ActionModel {
                    payload: repeated(body, self.times()),
                    echo: self.echo,
                    dns: self.dns,
                    delay_ms: self.delay_ms,
                    close: self.close,
                },
            ),
        }
    }

    /// The hex digits, where they are reached, can be cut into bytes, and a
    /// vector can hold the payload.
    pub open spec fn fits(self, file: Option<Seq<u8>>) -> bool {
        &&& self.text_bytes() is Ok ==> (self.hex matches Some(h) ==> hex::hex_aligns(h@))
        &&& self.body(file) matches Ok(body) ==> body.len() * self.times() <= isize::MAX
    }

    fn aligned(&self) -> (b: bool)
        ensures
            b == (self.hex matches Some(h) ==> hex::hex_aligns(h@)),
    {
        match &self.hex {
            Some(h) => aligned_hex(h.as_str()),
            None => true,
        }
    }

    fn compile_body(&self, file: &Option<Vec<u8>>) -> (body: Result<Vec<u8>, RespondError>)
        requires
            self.text_bytes() is Ok ==> (self.hex matches Some(h) ==> hex::hex_aligns(h@)),
        ensures
            match body {
                Ok(b) => self.body(held(*file)) == Ok::<Seq<u8>, RespondFault>(b@),
                Err(e) => self.body(held(*file)) == Err::<Seq<u8>, RespondFault>(e@),
            },
    {
        let mut out: Vec<u8> = Vec::new();
        if let Some(t) = &self.text {
            match unescape(t.as_str()) {
                Ok(b) => {
                    push_bytes(&mut out, b.as_slice());
                },
                Err(fault) => {
                    return Err(RespondError::Text(fault));
                },
            }
        }
        let ghost t = self.text_bytes()->Ok_0;
        assert(out@ =~= t);
        if let Some(h) = &self.hex {
            match parse_hex(h.as_str()) {
                Ok(b) => {
                    push_bytes(&mut out, b.as_slice());
                },
                Err(e) => {
                    return Err(RespondError::Hex(e));
                },
            }
        }
        let ghost h = self.hex_bytes()->Ok_0;
        assert(out@ =~= t + h);
        if self.file.is_some() {
            match file {
                Some(b) => {
                    push_bytes(&mut out, b.as_slice());
                },
                None => {
                    return Err(RespondError::File);
                },
            }
        }
        assert(out@ =~= t + h + self.file_bytes(held(*file))->0);
        Ok(out)
    }

    /// Whether the hex digits, where they are reached, can be cut into bytes and
    /// a vector can hold the payload.
    pub fn is_sound(&self, file: &Option<Vec<u8>>) -> (b: bool)
        ensures
            b == self.fits(held(*file)),
    {
        let readable = match &self.text {
            Some(t) => unescape(t.as_str()).is_ok(),
            None => true,
        };
        if readable && !self.aligned() {
            return false;
        }
        match self.compile_body(file) {
            Ok(body) => {
                let times: usize = match self.repeat {
                    Some(n) => n,
                    None => 1,
                };
                match body.len().checked_mul(times) {
                    Some(n) => n <= isize::MAX as usize,
                    None => false,
                }
            },
            Err(_) => true,
        }
    }
}

/// Flattens a response into bytes; `file` is what its file holds.
pub fn compile_respond(r: &Respond, file: &Option<Vec<u8>>) -> (action: Result<
    Action,
    RespondError,
>)
    requires
        r.fits(held(*file)),
    ensures
        match action {
            Ok(a) => r.action_of(held(*file)) == Ok::<ActionModel, RespondFault>(a@),
            Err(e) => r.action_of(held(*file)) == Err::<ActionModel, RespondFault>(e@),
        },
{
    let body = match r.compile_body(file) {
        Ok(b) => b,
        Err(e) => {
            return Err(e);
        },
    };
    let times: usize = match r.repeat {
        Some(n) => n,
        None => 1,
    };
    // nothing stays nothing, however often it is repeated
    let rounds: usize = if body.len() == 0 {
        0
    } else {
        times
    };
    let mut payload: Vec<u8> = Vec::new();
    let mut i: usize = 0;
    while i < rounds
        invariant
            i <= rounds,
            payload@ == repeated(body@, i as nat),
        decreases rounds - i,
    {
        push_bytes(&mut payload, body.as_slice());
        i += 1;
    }
    proof {
        if body@.len() == 0 {
            nothing_repeats(body@, times as nat);
        }
    }
    Ok(
        Action {
            payload,
            echo: r.echo,
            dns: r.dns,
            delay_ms: r.delay_ms,
            close: r.close,
        },
    )
}

/// The name of a rule: its own, or its place in the list.
pub open spec fn rule_name(name: Option<String>, i: int) -> Seq<char> {
    match name {
        Some(n) => n@,
        None => "rule["@ + text::decimal(i as nat) + "]"@,
    }
}

impl Contents {
    /// What the file of a rule holds.
    pub open spec fn of_rule(self, i: int) -> Option<Seq<u8>> {
        if 0 <= i < self.rules@.len() {
            held(self.rules@[i])
        } else {
            None
        }
    }
}

impl Rule {
    /// What a rule does: what its response does, or nothing.
    pub open spec fn action_of(self, file: Option<Seq<u8>>) -> Result<ActionModel, RespondFault> {
        match self.respond {
            Some(r) => r.action_of(file),
            None => Ok(super::no_action()),
        }
    }
}

impl Profile {
    /// What the banner does, if there is one.
    pub open spec fn banner_of(self, files: Contents) -> Result<
        Option<ActionModel>,
        RespondFault,
    > {
        match self.on_connect {
            None => Ok(None),
            Some(r) => match r.action_of(held(files.on_connect)) {
                Ok(a) => Ok(Some(a)),
                Err(fault) => Err(fault),
            },
        }
    }

    /// What a rule does.
    pub open spec fn rule_action(self, files: Contents, i: int) -> Result<
        ActionModel,
        RespondFault,
    > {
        self.rules@[i].action_of(files.of_rule(i))
    }

    /// Whether a rule is reached: nothing before it is at fault.
    pub open spec fn reaches(self, files: Contents, i: int) -> bool {
        self.banner_of(files) is Ok && forall|j: int|
            0 <= j < i ==> #[trigger] self.rule_action(files, j) is Ok
    }

    /// Every response that is reached fits.
    pub open spec fn fits(self, files: Contents) -> bool {
        &&& self.on_connect matches Some(r) ==> r.fits(held(files.on_connect))
        &&& forall|i: int|
            0 <= i < self.rules@.len() && self.reaches(files, i) ==> ((
            #[trigger] self.rules@[i]).respond matches Some(r) ==> r.fits(files.of_rule(i)))
    }

    /// Whether every response that is reached fits.
    pub fn is_sound(&self, files: &Contents) -> (b: bool)
        ensures
            b == self.fits(*files),
    {
        if let Some(r) = &self.on_connect {
            if !r.is_sound(&files.on_connect) {
                return false;
            }
            if r.compile_body(&files.on_connect).is_err() {
                assert(self.banner_of(*files) is Err);
                return true;
            }
        }
        let none: Option<Vec<u8>> = None;
        let mut i: usize = 0;
        while i < self.rules.len()
            invariant
                i <= self.rules.len(),
                none is None,
                self.on_connect matches Some(r) ==> r.fits(held(files.on_connect)),
                self.reaches(*files, i as int),
                forall|j: int|
                    0 <= j < i ==> ((#[trigger] self.rules@[j]).respond matches Some(r) ==> r.fits(
                        files.of_rule(j),
                    )),
            decreases self.rules.len() - i,
        {
            if let Some(r) = &self.rules[i].respond {
                let file = if i < files.rules.len() {
                    &files.rules[i]
                } else {
                    &none
                };
                assert(held(*file) == files.of_rule(i as int));
                assert(self.rules@[i as int].respond == Some(*r));
                if !r.is_sound(file) {
                    return false;
                }
                if r.compile_body(file).is_err() {
                    assert(self.rule_action(*files, i as int) is Err);
                    return true;
                }
            }
            assert(self.rule_action(*files, i as int) is Ok);
            i += 1;
        }
        true
    }

    /// What is at fault with a response that comes before all others at fault.
    pub open spec fn fault_of(self, files: Contents, rule: Option<usize>) -> Option<RespondFault> {
        match rule {
            None => match self.banner_of(files) {
                Err(fault) => Some(fault),
                Ok(_) => None,
            },
            Some(i) => if i < self.rules@.len() && self.reaches(files, i as int) {
                match self.rule_action(files, i as int) {
                    Err(fault) => Some(fault),
                    Ok(_) => None,
                }
            } else {
                None
            },
        }
    }

    /// The rules at the front are compiled.
    pub open spec fn compiles_to(self, files: Contents, rules: Seq<CompiledRule>) -> bool {
        &&& rules.len() <= self.rules@.len()
        &&& forall|i: int|
            #![trigger rules[i]]
            #![trigger self.rule_action(files, i)]
            0 <= i < rules.len() ==> {
                &&& rules[i].name@ == rule_name(self.rules@[i].name, i)
                &&& rules[i].matcher == self.rules@[i].matcher
                &&& self.rule_action(files, i) == Ok::<ActionModel, RespondFault>(
                    rules[i].action@,
                )
            }
    }
}

fn name_of(name: Option<String>, i: usize) -> (out: String)
    ensures
        out@ == rule_name(name, i as int),
{
    match name {
        Some(n) => n,
        None => {
            let mut out = String::new();
            out.append("rule[");
            push_decimal(&mut out, i as u64);
            out.append("]");
            assert(out@ =~= rule_name(name, i as int));
            out
        },
    }
}

/// Compiles a profile; `files` is what the files it names hold. The banner comes
/// first and the rules follow in their order; the first response at fault ends
/// it.
pub fn load(p: Profile, files: &Contents) -> (out: Result<Compiled, LoadError>)
    requires
        p.fits(*files),
    ensures
        match out {
            Ok(c) => {
                &&& c.name == p.name
                &&& c.description == p.description
                &&& p.banner_of(*files) == Ok::<Option<ActionModel>, RespondFault>(
                    match c.on_connect {
                        Some(a) => Some(a@),
                        None => None,
                    },
                )
                &&& c.rules@.len() == p.rules@.len()
                &&& p.compiles_to(*files, c.rules@)
            },
            Err(e) => p.fault_of(*files, e.rule) == Some(e.fault@),
        },
{
    let on_connect = match &p.on_connect {
        None => None,
        Some(r) => match compile_respond(r, &files.on_connect) {
            Ok(a) => Some(a),
            Err(fault) => {
                return Err(LoadError { rule: None, fault });
            },
        },
    };
    let none: Option<Vec<u8>> = None;
    let mut rules: Vec<CompiledRule> = Vec::new();
    let Profile { name, description, on_connect: _, rules: written } = p;
    for r in it: written.into_iter()
        invariant
            it.seq() == p.rules@,
            none is None,
            p.fits(*files),
            p.reaches(*files, rules@.len() as int),
            rules@.len() == it.index(),
            p.compiles_to(*files, rules@),
    {
        let i: usize = rules.len();
        assert(r == p.rules@[i as int]);
        let file = if i < files.rules.len() {
            &files.rules[i]
        } else {
            &none
        };
        assert(held(*file) == files.of_rule(i as int));
        let action = match &r.respond {
            None => Action::default(),
            Some(respond) => match compile_respond(respond, file) {
                Ok(a) => a,
                Err(fault) => {
                    assert(p.rule_action(*files, i as int) == Err::<ActionModel, RespondFault>(
                        fault@,
                    ));
                    return Err(LoadError { rule: Some(i), fault });
                },
            },
        };
        let Rule { name, matcher, respond: _ } = r;
        rules.push(CompiledRule { name: name_of(name, i), matcher, action });
    }
    Ok(Compiled { name, description, on_connect, rules })
}

// ------------------------------------------------------------- looking up

/// Where a profile was found.
#[derive(Clone, Copy, Debug, PartialEq, Eq, Structural)]
pub enum Place {
    /// the given text is a path
    Direct,
    /// a file of the profile directory
    Named,
}

/// The file that holds the profile of a given name.
pub open spec fn file_name_of(spec: Seq<char>) -> Seq<char> {
    spec + ".toml"@
}

/// The file that holds the profile of a given name.
pub fn file_name(spec: &str) -> (out: String)
    ensures
        out@ == file_name_of(spec@),
{
    let mut out = String::new();
    out.append(spec);
    out.append(".toml");
    assert(out@ =~= file_name_of(spec@));
    out
}

/// Takes a text as a path if there is such a file, else as a name in the profile
/// directory.
pub fn resolve(direct_is_file: bool, named_is_file: bool) -> (place: Option<Place>)
    ensures
        place == if direct_is_file {
            Some(Place::Direct)
        } else if named_is_file {
            Some(Place::Named)
        } else {
            None
        },
{
    if direct_is_file {
        Some(Place::Direct)
    } else if named_is_file {
        Some(Place::Named)
    } else {
        None
    }
}

/// What is said of a profile that is in neither place.
pub open spec fn not_found_of(quoted: Seq<char>, direct: Seq<char>, named: Seq<char>) -> Seq<char> {
    "profile "@ + quoted + " not found (looked at "@ + direct + " and "@ + named + ")"@
}

/// What is said of a profile that is in neither place, from its quoted name.
pub fn not_found_line(quoted: &str, direct: &str, named: &str) -> (out: String)
    ensures
        out@ == not_found_of(quoted@, direct@, named@),
{
    let mut out = String::new();
    out.append("profile ");
    out.append(quoted);
    out.append(" not found (looked at ");
    out.append(direct);
    out.append(" and ");
    out.append(named);
    out.append(")");
    assert(out@ =~= not_found_of(quoted@, direct@, named@));
    out
}

/// What is said of a profile that is in neither place.
pub fn not_found(spec: &str, direct: &str, named: &str) -> (out: String)
    ensures
        out@ == not_found_of(text::quoted(spec@), direct@, named@),
{
    not_found_line(quote(spec).as_str(), direct, named)
}

// ------------------------------------------------------------- messages

impl HexFault {
    /// What is said of a hex text, from its quoted form and that of the bad byte.
    pub open spec fn message_of(self, quoted: Seq<char>, byte: Seq<char>) -> Seq<char> {
        match self {
            HexFault::Odd => "hex string has an odd number of digits: "@ + quoted,
            HexFault::BadByte(_) => "bad hex byte "@ + byte + " in "@ + quoted,
        }
    }
}

impl HexError {
    /// What is said of a hex text, from its quoted form and that of the bad byte.
    pub fn line(&self, quoted: &str, byte: &str) -> (out: String)
        ensures
            out@ == self@.message_of(quoted@, byte@),
    {
        let mut out = String::new();
        match self {
            HexError::Odd => {
                out.append("hex string has an odd number of digits: ");
                out.append(quoted);
            },
            HexError::BadByte(_) => {
                out.append("bad hex byte ");
                out.append(byte);
                out.append(" in ");
                out.append(quoted);
            },
        }
        assert(out@ =~= self@.message_of(quoted@, byte@));
        out
    }

    /// What is said of the hex text at fault.
    pub fn message(&self, text: &str) -> (out: String)
        ensures
            out@ == self@.message_of(
                text::quoted(text@),
                match self@ {
                    HexFault::Odd => Seq::empty(),
                    HexFault::BadByte(pair) => text::quoted(pair),
                },
            ),
    {
        let byte = match self {
            HexError::Odd => String::new(),
            HexError::BadByte(pair) => quote(pair.as_str()),
        };
        self.line(quote(text).as_str(), byte.as_str())
    }
}

impl EscapeFault {
    /// What is said of the escape at fault.
    pub open spec fn message_of(self) -> Seq<char> {
        match self {
            EscapeFault::Truncated => "truncated \\x escape"@,
            EscapeFault::BadHex(hi, lo) => "bad \\x escape: \\x"@ + seq![hi, lo],
            EscapeFault::Unknown(c) => "unknown escape: \\"@ + seq![c],
            EscapeFault::Trailing => "trailing backslash"@,
        }
    }

    /// What is said of the escape at fault.
    pub fn message(&self) -> (out: String)
        ensures
            out@ == self.message_of(),
    {
        let mut out = String::new();
        match self {
            EscapeFault::Truncated => {
                out.append("truncated \\x escape");
            },
            EscapeFault::BadHex(hi, lo) => {
                out.append("bad \\x escape: \\x");
                out.push(*hi);
                out.push(*lo);
            },
            EscapeFault::Unknown(c) => {
                out.append("unknown escape: \\");
                out.push(*c);
            },
            EscapeFault::Trailing => {
                out.append("trailing backslash");
            },
        }
        assert(out@ =~= self.message_of());
        out
    }
}

} // verus!
