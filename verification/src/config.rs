//! Listeners, and the terse spec that names one on the command line.
use crate::text;
use crate::text::{chars_of, find_char, lower_chars_of, quote, same_chars, text_of};
use vstd::prelude::*;

verus! {

/// A transport.
#[derive(Debug, Clone, Copy, PartialEq, Eq, Structural)]
pub enum Proto {
    Tcp,
    Udp,
}

impl Proto {
    /// The name of the transport.
    pub open spec fn name(self) -> Seq<char> {
        match self {
            Proto::Tcp => "tcp"@,
            Proto::Udp => "udp"@,
        }
    }

    /// The name of the transport.
    pub fn tag(self) -> (out: &'static str)
        ensures
            out@ == self.name(),
    {
        match self {
            Proto::Tcp => "tcp",
            Proto::Udp => "udp",
        }
    }
}

/// Something to listen on.
#[derive(Debug)]
pub struct Listener {
    pub proto: Proto,
    pub bind: String,
    pub profile: Option<String>,
    pub name: Option<String>,
    /// pin this listener to an interface by name
    pub iface: Option<String>,
    /// forward to this address instead of answering
    pub upstream: Option<String>,
}

/// What a listener is made of.
pub struct ListenerModel {
    pub proto: Proto,
    pub bind: Seq<char>,
    pub profile: Option<Seq<char>>,
    pub name: Option<Seq<char>>,
    pub iface: Option<Seq<char>>,
    pub upstream: Option<Seq<char>>,
}

impl View for Listener {
    type V = ListenerModel;

    open spec fn view(&self) -> ListenerModel {
        ListenerModel {
            proto: self.proto,
            bind: self.bind@,
            profile: text::shown(self.profile),
            name: text::shown(self.name),
            iface: text::shown(self.iface),
            upstream: text::shown(self.upstream),
        }
    }
}

fn copied(o: &Option<String>) -> (out: Option<String>)
    ensures
        out == *o,
{
    match o {
        Some(s) => Some(s.clone()),
        None => None,
    }
}

impl Clone for Listener {
    fn clone(&self) -> (l: Self)
        ensures
            l == *self,
    {
        Listener {
            proto: self.proto,
            bind: self.bind.clone(),
            profile: copied(&self.profile),
            name: copied(&self.name),
            iface: copied(&self.iface),
            upstream: copied(&self.upstream),
        }
    }
}

/// What a config file describes.
#[derive(Debug)]
pub struct ConfigFile {
    pub listeners: Vec<Listener>,
}

impl Default for ConfigFile {
    fn default() -> (c: Self)
        ensures
            c.listeners@ == Seq::<Listener>::empty(),
    {
        ConfigFile { listeners: Vec::new() }
    }
}

/// What stands before and behind the first occurrence of a character.
pub open spec fn split_at(s: Seq<char>, c: char) -> Option<(Seq<char>, Seq<char>)> {
    match text::first_occurrence(s, seq![c]) {
        Some(i) => Some((s.take(i), s.skip(i + 1))),
        None => None,
    }
}

/// Why a listener spec cannot be read.
pub enum SpecFault {
    /// nothing behind the equals sign
    EmptyProfile,
    /// no colon
    NotProtoPort,
    /// a transport that is not known, in lower case
    UnsupportedProtocol(Seq<char>),
}

/// The transport of a given name, in any case.
pub open spec fn proto_of(name: Seq<char>) -> Option<Proto> {
    if text::lower(name) == "tcp"@ {
        Some(Proto::Tcp)
    } else if text::lower(name) == "udp"@ {
        Some(Proto::Udp)
    } else {
        None
    }
}

/// The address to bind: a bare port means all interfaces, and anything else is
/// taken as it stands.
pub open spec fn bind_of(rest: Seq<char>) -> Seq<char> {
    if text::all_digits(rest) && rest.len() > 0 {
        "0.0.0.0:"@ + rest
    } else {
        rest
    }
}

/// The listener that a spec without its profile describes.
pub open spec fn body_of(body: Seq<char>, profile: Option<Seq<char>>) -> Result<
    ListenerModel,
    SpecFault,
> {
    match split_at(body, ':') {
        None => Err(SpecFault::NotProtoPort),
        Some((proto, rest)) => match proto_of(proto) {
            None => Err(SpecFault::UnsupportedProtocol(text::lower(proto))),
            Some(proto) => Ok(
                ListenerModel {
                    proto,
                    bind: bind_of(rest),
                    profile,
                    name: None,
                    iface: None,
                    upstream: None,
                },
            ),
        },
    }
}

/// The listener that a spec describes.
pub open spec fn spec_of(spec: Seq<char>) -> Result<ListenerModel, SpecFault> {
    match split_at(spec, '=') {
        None => body_of(spec, None),
        Some((body, profile)) => if profile.len() == 0 {
            Err(SpecFault::EmptyProfile)
        } else {
            body_of(body, Some(profile))
        },
    }
}

/// Why a listener spec cannot be read.
#[derive(Debug)]
pub enum SpecError {
    EmptyProfile,
    NotProtoPort,
    UnsupportedProtocol(String),
}

impl View for SpecError {
    type V = SpecFault;

    open spec fn view(&self) -> SpecFault {
        match self {
            SpecError::EmptyProfile => SpecFault::EmptyProfile,
            SpecError::NotProtoPort => SpecFault::NotProtoPort,
            SpecError::UnsupportedProtocol(proto) => SpecFault::UnsupportedProtocol(proto@),
        }
    }
}

fn split<'a>(s: &'a [char], c: char) -> (out: Option<(&'a [char], &'a [char])>)
    ensures
        match out {
            Some((front, back)) => split_at(s@, c) == Some((front@, back@)),
            None => split_at(s@, c) is None,
        },
{
    match find_char(s, c) {
        None => None,
        Some(i) => {
            let front = vstd::slice::slice_subrange(s, 0, i);
            let back = vstd::slice::slice_subrange(s, i + 1, s.len());
            assert(front@ =~= s@.take(i as int));
            assert(back@ =~= s@.skip(i + 1));
            Some((front, back))
        },
    }
}

fn proto_named(name: &[char]) -> (proto: Option<Proto>)
    ensures
        proto == proto_of(name@),
{
    let low = lower_chars_of(name);
    if same_chars(low.as_slice(), chars_of("tcp").as_slice()) {
        Some(Proto::Tcp)
    } else if same_chars(low.as_slice(), chars_of("udp").as_slice()) {
        Some(Proto::Udp)
    } else {
        None
    }
}

fn is_port(rest: &[char]) -> (b: bool)
    ensures
        b == text::all_digits(rest@),
{
    let mut i: usize = 0;
    while i < rest.len()
        invariant
            i <= rest.len(),
            forall|j: int| 0 <= j < i ==> text::is_digit(#[trigger] rest@[j]),
        decreases rest.len() - i,
    {
        if rest[i] < '0' || rest[i] > '9' {
            assert(!text::is_digit(rest@[i as int]));
            return false;
        }
        i += 1;
    }
    true
}

fn bind_for(rest: &[char]) -> (bind: String)
    ensures
        bind@ == bind_of(rest@),
{
    if rest.len() > 0 && is_port(rest) {
        let mut bind = String::new();
        bind.append("0.0.0.0:");
        text::push_chars(&mut bind, rest);
        assert(bind@ =~= bind_of(rest@));
        bind
    } else {
        text_of(rest)
    }
}

fn parse_body(body: &[char], profile: Option<String>) -> (l: Result<Listener, SpecError>)
    ensures
        match l {
            Ok(l) => body_of(body@, text::shown(profile)) == Ok::<ListenerModel, SpecFault>(l@),
            Err(e) => body_of(body@, text::shown(profile)) == Err::<ListenerModel, SpecFault>(e@),
        },
{
    match split(body, ':') {
        None => Err(SpecError::NotProtoPort),
        Some((proto, rest)) => match proto_named(proto) {
            None => Err(
                SpecError::UnsupportedProtocol(text_of(lower_chars_of(proto).as_slice())),
            ),
            Some(proto) => Ok(
                Listener {
                    proto,
                    bind: bind_for(rest),
                    profile,
                    name: None,
                    iface: None,
                    upstream: None,
                },
            ),
        },
    }
}

/// `tcp:9000`, `udp:0.0.0.0:9000`, `tcp:[::]:9000`, with an optional `=profile`
/// suffix: `tcp:9000=http`.
pub fn parse_spec(spec: &str) -> (l: Result<Listener, SpecError>)
    ensures
        match l {
            Ok(l) => spec_of(spec@) == Ok::<ListenerModel, SpecFault>(l@),
            Err(e) => spec_of(spec@) == Err::<ListenerModel, SpecFault>(e@),
        },
{
    let chars = chars_of(spec);
    match split(chars.as_slice(), '=') {
        None => parse_body(chars.as_slice(), None),
        Some((body, profile)) => if profile.len() == 0 {
            Err(SpecError::EmptyProfile)
        } else {
            parse_body(body, Some(text_of(profile)))
        },
    }
}

/// A profile suffix names the profile and changes nothing else.
pub proof fn a_suffix_names_the_profile(spec: Seq<char>, profile: Seq<char>)
    requires
        !spec.contains('='),
        profile.len() > 0,
    ensures
        spec_of(spec + seq!['='] + profile) == match spec_of(spec) {
            Ok(l) => Ok::<ListenerModel, SpecFault>(ListenerModel { profile: Some(profile), ..l }),
            Err(fault) => Err(fault),
        },
{
    let whole = spec + seq!['='] + profile;
    text::a_needle_is_found(spec, seq!['='], profile);
    assert(whole.take(spec.len() as int) =~= spec);
    assert(whole.skip(spec.len() as int + 1) =~= profile);
    no_separator(spec, '=');
}

/// A transport and what follows the colon make a listener: a bare port binds all
/// interfaces, and an address is kept as it stands.
pub proof fn a_spec_reads_back(proto: Proto, rest: Seq<char>)
    requires
        !rest.contains('='),
    ensures
        spec_of(proto.name() + seq![':'] + rest) == Ok::<ListenerModel, SpecFault>(
            ListenerModel {
                proto,
                bind: bind_of(rest),
                profile: None,
                name: None,
                iface: None,
                upstream: None,
            },
        ),
{
    reveal_strlit("tcp");
    reveal_strlit("udp");
    let name = proto.name();
    let whole = name + seq![':'] + rest;
    assert forall|i: int| 0 <= i < whole.len() implies whole[i] != '=' by {
        if i > name.len() {
            assert(whole[i] == rest[i - name.len() - 1]);
            assert(rest.contains(rest[i - name.len() - 1]));
        }
    }
    no_separator(whole, '=');
    text::a_needle_is_found(name, seq![':'], rest);
    assert(whole.take(name.len() as int) =~= name);
    assert(whole.skip(name.len() as int + 1) =~= rest);
    assert(text::lower(name) =~= name);
    assert("tcp"@[0] != "udp"@[0]);
}

proof fn no_separator(s: Seq<char>, c: char)
    requires
        !s.contains(c),
    ensures
        split_at(s, c) is None,
{
    text::search_finds_the_first(s, seq![c], 0);
    if let Some(i) = text::first_occurrence(s, seq![c]) {
        assert(s.subrange(i, i + 1)[0] == s[i]);
        assert(s.contains(s[i]));
    }
}

impl SpecFault {
    /// What is said of a spec, from its quoted text and that of its transport.
    pub open spec fn message_of(self, spec: Seq<char>, proto: Seq<char>) -> Seq<char> {
        match self {
            SpecFault::EmptyProfile => "empty profile name in spec "@ + spec,
            SpecFault::NotProtoPort => "spec "@ + spec + " must look like proto:port"@,
            SpecFault::UnsupportedProtocol(_) => "unsupported protocol "@ + proto
                + " (want tcp or udp)"@,
        }
    }
}

impl SpecError {
    /// What is said of a spec, from its quoted text and that of its transport.
    pub fn line(&self, spec: &str, proto: &str) -> (out: String)
        ensures
            out@ == self@.message_of(spec@, proto@),
    {
        let mut out = String::new();
        match self {
            SpecError::EmptyProfile => {
                out.append("empty profile name in spec ");
                out.append(spec);
            },
            SpecError::NotProtoPort => {
                out.append("spec ");
                out.append(spec);
                out.append(" must look like proto:port");
            },
            SpecError::UnsupportedProtocol(_) => {
                out.append("unsupported protocol ");
                out.append(proto);
                out.append(" (want tcp or udp)");
            },
        }
        assert(out@ =~= self@.message_of(spec@, proto@));
        out
    }

    /// What is said of the spec at fault.
    pub fn message(&self, spec: &str) -> (out: String)
        ensures
            out@ == self@.message_of(
                text::quoted(spec@),
                match self@ {
                    SpecFault::UnsupportedProtocol(proto) => text::quoted(proto),
                    _ => Seq::empty(),
                },
            ),
    {
        let proto = match self {
            SpecError::UnsupportedProtocol(proto) => quote(proto.as_str()),
            _ => String::new(),
        };
        self.line(quote(spec).as_str(), proto.as_str())
    }
}

// ------------------------------------------------------------- laws

/// What the address to bind is: a port alone binds all interfaces, and anything
/// else is taken as it stands.
pub open spec fn is_bind(rest: Seq<char>, bind: Seq<char>) -> bool {
    let is_port = rest.len() > 0 && forall|i: int| 0 <= i < rest.len() ==> '0' <= #[trigger] rest[i] <= '9';
    if is_port {
        bind == "0.0.0.0:"@ + rest
    } else {
        bind == rest
    }
}

proof fn a_bind_is_told(rest: Seq<char>)
    ensures
        is_bind(rest, bind_of(rest)),
{
    if text::all_digits(rest) {
        assert forall|i: int| 0 <= i < rest.len() implies '0' <= #[trigger] rest[i] <= '9' by {
            assert(text::is_digit(rest[i]));
        }
    } else {
        let i = choose|i: int| 0 <= i < rest.len() && !text::is_digit(#[trigger] rest[i]);
        assert(!('0' <= rest[i] <= '9'));
    }
}

/// A spec is a transport, in any case, a colon, an address or a port, and, where
/// there is an equals sign, the name of a profile behind it. The transport ends at
/// the first colon and the address at the first equals sign.
pub proof fn a_spec_is_read(name: Seq<char>, rest: Seq<char>, profile: Seq<char>, proto: Proto)
    requires
        !name.contains(':'),
        !name.contains('='),
        !rest.contains('='),
        text::lower(name) == (match proto {
            Proto::Tcp => "tcp"@,
            Proto::Udp => "udp"@,
        }),
        profile.len() > 0,
    ensures
        spec_of(name + seq![':'] + rest) matches Ok(l) && l.proto == proto && is_bind(rest, l.bind)
            && l.profile is None && l.name is None && l.iface is None && l.upstream is None,
        spec_of(name + seq![':'] + rest + seq!['='] + profile) matches Ok(l) && l.proto == proto
            && is_bind(rest, l.bind) && l.profile == Some(profile) && l.name is None && l.iface
            is None && l.upstream is None,
        spec_of(name + seq![':'] + rest + seq!['=']) == Err::<ListenerModel, SpecFault>(
            SpecFault::EmptyProfile,
        ),
{
    reveal_strlit("tcp");
    reveal_strlit("udp");
    assert("tcp"@[0] != "udp"@[0]);
    let body = name + seq![':'] + rest;
    assert forall|i: int| 0 <= i < body.len() implies body[i] != '=' by {
        if i < name.len() {
            assert(body[i] == name[i]);
            assert(name.contains(name[i]));
        } else if i > name.len() {
            assert(body[i] == rest[i - name.len() - 1]);
            assert(rest.contains(rest[i - name.len() - 1]));
        }
    }
    assert(!body.contains('='));
    no_separator(body, '=');
    text::a_needle_is_found(name, seq![':'], rest);
    assert(body.take(name.len() as int) =~= name);
    assert(body.skip(name.len() as int + 1) =~= rest);
    a_bind_is_told(rest);
    a_suffix_names_the_profile(body, profile);
    assert(body + seq!['='] + profile =~= name + seq![':'] + rest + seq!['='] + profile);
    let none = Seq::<char>::empty();
    let bare = body + seq!['='];
    assert(bare =~= body + seq!['='] + none);
    text::a_needle_is_found(body, seq!['='], none);
    assert(bare.skip(body.len() as int + 1) =~= none);
}

/// A spec without a colon is none, nor is one whose transport is neither of the
/// two.
pub proof fn other_specs_are_refused(s: Seq<char>, name: Seq<char>, rest: Seq<char>)
    requires
        !s.contains(':'),
        !s.contains('='),
        !name.contains(':'),
        !name.contains('='),
        !rest.contains('='),
        text::lower(name) != "tcp"@,
        text::lower(name) != "udp"@,
    ensures
        spec_of(s) == Err::<ListenerModel, SpecFault>(SpecFault::NotProtoPort),
        spec_of(name + seq![':'] + rest) == Err::<ListenerModel, SpecFault>(
            SpecFault::UnsupportedProtocol(text::lower(name)),
        ),
{
    no_separator(s, '=');
    no_separator(s, ':');
    let body = name + seq![':'] + rest;
    assert forall|i: int| 0 <= i < body.len() implies body[i] != '=' by {
        if i < name.len() {
            assert(body[i] == name[i]);
            assert(name.contains(name[i]));
        } else if i > name.len() {
            assert(body[i] == rest[i - name.len() - 1]);
            assert(rest.contains(rest[i - name.len() - 1]));
        }
    }
    no_separator(body, '=');
    text::a_needle_is_found(name, seq![':'], rest);
    assert(body.take(name.len() as int) =~= name);
    assert(body.skip(name.len() as int + 1) =~= rest);
}

/// The transports are called `tcp` and `udp`.
pub proof fn transports_have_their_names(proto: Proto)
    ensures
        proto.name() == (match proto {
            Proto::Tcp => "tcp"@,
            Proto::Udp => "udp"@,
        }),
{
}

/// `parse_spec` reads a spec as what it says.
pub proof fn a_spec_is_parsed(spec: &str, l: Result<Listener, SpecError>)
    requires
        call_ensures(parse_spec, (spec,), l),
    ensures
        match spec_of(spec@) {
            Ok(m) => l matches Ok(l) && l.proto == m.proto && l.bind@ == m.bind && text::shown(
                l.profile,
            ) == m.profile && text::shown(l.name) == m.name && text::shown(l.iface) == m.iface
                && text::shown(l.upstream) == m.upstream,
            Err(fault) => l matches Err(e) && e@ == fault,
        },
{
    if let Ok(l) = l {
        assert(l@.bind == l.bind@);
    }
}

/// What is said of a spec that cannot be read shows the spec, or the transport that
/// is not known.
pub proof fn faults_are_spoken_of(spec: Seq<char>, proto: Seq<char>, name: Seq<char>)
    ensures
        SpecFault::EmptyProfile.message_of(spec, proto) == "empty profile name in spec "@ + spec,
        SpecFault::NotProtoPort.message_of(spec, proto) == "spec "@ + spec
            + " must look like proto:port"@,
        SpecFault::UnsupportedProtocol(name).message_of(spec, proto) == "unsupported protocol "@
            + proto + " (want tcp or udp)"@,
{
}

} // verus!
