//! From what was asked for to what is run.
use crate::config;
use crate::config::{Listener, Proto};
use crate::log::{ConsoleMode, Options};
use crate::stream::Limits;
use crate::text;
use crate::text::{own, push_decimal, same_text};
use vstd::prelude::*;

verus! {

// ------------------------------------------------------------- profile dir

/// A directory in which profiles are looked up.
#[derive(Clone, Copy, Debug, PartialEq, Eq, Structural)]
pub enum Candidate {
    /// beside where the program was started
    Local,
    /// under the user's data directory
    DataHome,
    /// under the user's home directory
    Home,
    /// installed by hand
    UsrLocal,
    /// installed by the system
    Usr,
}

impl Candidate {
    /// The path, below the directory that it is relative to where there is one.
    pub open spec fn path(self) -> Seq<char> {
        match self {
            Candidate::Local => "profiles"@,
            Candidate::DataHome => "kirblasnoop/profiles"@,
            Candidate::Home => ".local/share/kirblasnoop/profiles"@,
            Candidate::UsrLocal => "/usr/local/share/kirblasnoop/profiles"@,
            Candidate::Usr => "/usr/share/kirblasnoop/profiles"@,
        }
    }

    /// The path, below the directory that it is relative to where there is one.
    pub fn tail(self) -> (out: &'static str)
        ensures
            out@ == self.path(),
    {
        match self {
            Candidate::Local => "profiles",
            Candidate::DataHome => "kirblasnoop/profiles",
            Candidate::Home => ".local/share/kirblasnoop/profiles",
            Candidate::UsrLocal => "/usr/local/share/kirblasnoop/profiles",
            Candidate::Usr => "/usr/share/kirblasnoop/profiles",
        }
    }
}

/// The directories in which profiles are looked up, in that order; those of the
/// user only where the environment names them.
pub fn candidates(data_home: bool, home: bool) -> (out: Vec<Candidate>)
    ensures
        out@ == seq![Candidate::Local] + (if data_home {
            seq![Candidate::DataHome]
        } else {
            Seq::empty()
        }) + (if home {
            seq![Candidate::Home]
        } else {
            Seq::empty()
        }) + seq![Candidate::UsrLocal, Candidate::Usr],
{
    let mut out: Vec<Candidate> = Vec::new();
    out.push(Candidate::Local);
    if data_home {
        out.push(Candidate::DataHome);
    }
    if home {
        out.push(Candidate::Home);
    }
    out.push(Candidate::UsrLocal);
    out.push(Candidate::Usr);
    out
}

/// The first directory that exists, from the `i`-th on.
pub open spec fn existing_from(found: Seq<bool>, i: int) -> Option<int>
    decreases found.len() - i,
{
    if i < 0 || i >= found.len() {
        None
    } else if found[i] {
        Some(i)
    } else {
        existing_from(found, i + 1)
    }
}

/// Which directory is taken, by which of them exist: the first that does, and else
/// the first of all.
pub fn pick(found: &Vec<bool>) -> (at: usize)
    ensures
        at == match existing_from(found@, 0) {
            Some(i) => i,
            None => 0,
        },
{
    let mut i: usize = 0;
    while i < found.len()
        invariant
            i <= found.len(),
            existing_from(found@, 0) == existing_from(found@, i as int),
        decreases found.len() - i,
    {
        if found[i] {
            return i;
        }
        i += 1;
    }
    0
}

// ------------------------------------------------------------- listeners

/// What listeners have unless they say otherwise.
#[derive(Debug)]
pub struct Defaults {
    pub profile: Option<String>,
    pub iface: Option<String>,
    pub upstream: Option<String>,
}

/// A listener with everything decided.
#[derive(Debug)]
pub struct Plan {
    pub proto: Proto,
    pub name: String,
    pub bind: String,
    pub profile: Option<String>,
    pub iface: Option<String>,
    pub upstream: Option<String>,
}

/// A listener with everything decided.
pub struct PlanModel {
    pub proto: Proto,
    pub name: Seq<char>,
    pub bind: Seq<char>,
    pub profile: Option<Seq<char>>,
    pub iface: Option<Seq<char>>,
    pub upstream: Option<Seq<char>>,
}

impl View for Plan {
    type V = PlanModel;

    open spec fn view(&self) -> PlanModel {
        PlanModel {
            proto: self.proto,
            name: self.name@,
            bind: self.bind@,
            profile: text::shown(self.profile),
            iface: text::shown(self.iface),
            upstream: text::shown(self.upstream),
        }
    }
}

/// What is said, or else what goes without saying.
pub open spec fn or_else(own: Option<Seq<char>>, other: Option<Seq<char>>) -> Option<Seq<char>> {
    match own {
        Some(s) => Some(s),
        None => other,
    }
}

/// The `i`-th listener with everything decided: its own name or its transport and
/// place, and the defaults for what it does not say.
pub open spec fn plan_of(l: Listener, i: int, d: Defaults) -> PlanModel {
    PlanModel {
        proto: l.proto,
        name: match l.name {
            Some(name) => name@,
            None => l.proto.name() + ":"@ + text::decimal(i as nat),
        },
        bind: l.bind@,
        profile: or_else(text::shown(l.profile), text::shown(d.profile)),
        iface: or_else(text::shown(l.iface), text::shown(d.iface)),
        upstream: or_else(text::shown(l.upstream), text::shown(d.upstream)),
    }
}

fn either(first: &Option<String>, second: &Option<String>) -> (out: Option<String>)
    ensures
        text::shown(out) == or_else(text::shown(*first), text::shown(*second)),
{
    match first {
        Some(s) => Some(own(s.as_str())),
        None => match second {
            Some(s) => Some(own(s.as_str())),
            None => None,
        },
    }
}

fn plan_one(l: &Listener, i: usize, d: &Defaults) -> (p: Plan)
    ensures
        p@ == plan_of(*l, i as int, *d),
{
    let name = match &l.name {
        Some(name) => own(name.as_str()),
        None => {
            let mut name = own(l.proto.tag());
            name.append(":");
            push_decimal(&mut name, i as u64);
            name
        },
    };
    Plan {
        proto: l.proto,
        name,
        bind: own(l.bind.as_str()),
        profile: either(&l.profile, &d.profile),
        iface: either(&l.iface, &d.iface),
        upstream: either(&l.upstream, &d.upstream),
    }
}

/// What is said when there is nothing to listen on.
pub open spec fn nothing_of() -> Seq<char> {
    "nothing to listen on. try: kls tcp:9000 udp:9000  (or --help)"@
}

/// Decides everything about the listeners, those of the config file before those
/// of the command line. There has to be at least one.
pub fn plan(listeners: &Vec<Listener>, d: &Defaults) -> (plans: Result<Vec<Plan>, &'static str>)
    ensures
        match plans {
            Ok(p) => {
                &&& listeners@.len() > 0
                &&& p@.len() == listeners@.len()
                &&& forall|i: int|
                    0 <= i < p@.len() ==> (#[trigger] p@[i])@ == plan_of(listeners@[i], i, *d)
            },
            Err(e) => listeners@.len() == 0 && e@ == nothing_of(),
        },
{
    if listeners.len() == 0 {
        return Err("nothing to listen on. try: kls tcp:9000 udp:9000  (or --help)");
    }
    let mut plans: Vec<Plan> = Vec::new();
    let mut i: usize = 0;
    while i < listeners.len()
        invariant
            i <= listeners.len(),
            plans@.len() == i,
            forall|j: int| 0 <= j < i ==> (#[trigger] plans@[j])@ == plan_of(listeners@[j], j, *d),
        decreases listeners.len() - i,
    {
        plans.push(plan_one(&listeners[i], i, d));
        i += 1;
    }
    Ok(plans)
}

/// Whether a name is among several.
pub open spec fn among(names: Seq<Seq<char>>, name: Seq<char>) -> bool {
    exists|i: int| 0 <= i < names.len() && #[trigger] names[i] == name
}

/// The profiles that the first `n` listeners name, each once, in the order in which
/// they are first named.
pub open spec fn wanted(plans: Seq<Plan>, n: nat) -> Seq<Seq<char>>
    decreases n,
{
    if n == 0 {
        Seq::empty()
    } else {
        let before = wanted(plans, (n - 1) as nat);
        match plans[n - 1].profile {
            Some(name) => if among(before, name@) {
                before
            } else {
                before.push(name@)
            },
            None => before,
        }
    }
}

fn is_among(names: &Vec<String>, name: &str) -> (b: bool)
    ensures
        b == among(text::shown_all(names@), name@),
{
    let mut i: usize = 0;
    while i < names.len()
        invariant
            i <= names.len(),
            forall|j: int| 0 <= j < i ==> #[trigger] text::shown_all(names@)[j] != name@,
        decreases names.len() - i,
    {
        if same_text(names[i].as_str(), name) {
            assert(text::shown_all(names@)[i as int] == name@);
            return true;
        }
        i += 1;
    }
    false
}

/// The profiles that are to be loaded: one for each name, shared by the listeners
/// that name it.
pub fn profiles(plans: &Vec<Plan>) -> (names: Vec<String>)
    ensures
        text::shown_all(names@) == wanted(plans@, plans@.len()),
{
    let mut names: Vec<String> = Vec::new();
    let mut i: usize = 0;
    assert(text::shown_all(names@) =~= wanted(plans@, 0));
    while i < plans.len()
        invariant
            i <= plans.len(),
            text::shown_all(names@) == wanted(plans@, i as nat),
        decreases plans.len() - i,
    {
        if let Some(name) = &plans[i].profile {
            if !is_among(&names, name.as_str()) {
                let ghost before = names@;
                names.push(own(name.as_str()));
                assert(text::shown_all(names@) =~= text::shown_all(before).push(name@));
            }
        }
        i += 1;
    }
    names
}

/// A profile is wanted exactly if some listener names it, and is loaded only once.
pub proof fn every_profile_is_loaded_once(plans: Seq<Plan>, n: nat)
    requires
        n <= plans.len(),
    ensures
        forall|i: int|
            0 <= i < n ==> ((#[trigger] plans[i]).profile matches Some(name) ==> among(
                wanted(plans, n),
                name@,
            )),
        forall|i: int, j: int|
            0 <= i < j < wanted(plans, n).len() ==> wanted(plans, n)[i] != wanted(plans, n)[j],
    decreases n,
{
    if n > 0 {
        every_profile_is_loaded_once(plans, (n - 1) as nat);
        let before = wanted(plans, (n - 1) as nat);
        let all = wanted(plans, n);
        assert forall|name: Seq<char>| among(before, name) implies among(all, name) by {
            let i = choose|i: int| 0 <= i < before.len() && #[trigger] before[i] == name;
            assert(all[i] == name);
        }
        if let Some(name) = plans[n - 1].profile {
            if !among(before, name@) {
                assert(all[before.len() as int] == name@);
                assert forall|i: int, j: int| 0 <= i < j < all.len() implies all[i] != all[j] by {
                    if j == before.len() {
                        assert(all[i] == before[i]);
                    }
                }
            }
        }
    }
}

/// What is said of a listener that cannot forward, as it is no connection.
pub open spec fn unforwarded_of(bind: Seq<char>) -> Seq<char> {
    "kls: --upstream is tcp only; the udp listener on "@ + bind + " will capture but not forward"@
}

/// What is said of a listener that cannot forward, if it should.
pub fn unforwarded(p: &Plan) -> (line: Option<String>)
    ensures
        text::shown(line) == if p.proto == Proto::Udp && p.upstream is Some {
            Some(unforwarded_of(p.bind@))
        } else {
            None
        },
{
    if p.proto == Proto::Udp && p.upstream.is_some() {
        let mut out = String::new();
        out.append("kls: --upstream is tcp only; the udp listener on ");
        out.append(p.bind.as_str());
        out.append(" will capture but not forward");
        assert(out@ =~= unforwarded_of(p.bind@));
        Some(out)
    } else {
        None
    }
}

/// Whether the run counts as failed: nothing is left running and something could
/// not start.
pub fn all_failed(failed: usize, left: usize) -> (b: bool)
    ensures
        b == (failed > 0 && left == 0),
{
    failed > 0 && left == 0
}

// ------------------------------------------------------------- recording

/// What was asked for about recording.
#[derive(Debug)]
pub struct Recording {
    pub log_dir: String,
    pub console: ConsoleMode,
    pub max_bytes: usize,
    pub no_raw: bool,
    pub no_jsonl: bool,
    pub no_files: bool,
    pub jsonl_max_data: usize,
    pub stream_head: u64,
    pub stream_tail: u64,
    /// stands for both of these
    pub ring: Option<u64>,
    pub max_run_bytes: u64,
}

/// How many bytes a vector can be asked to hold, at most.
pub open spec fn in_memory(n: u64) -> usize {
    if n > usize::MAX {
        usize::MAX
    } else {
        n as usize
    }
}

/// How much of a stream is kept: as much at either end as the ring says, where it
/// is given.
pub open spec fn limits_of(r: Recording) -> Limits {
    Limits {
        head: match r.ring {
            Some(n) => n,
            None => r.stream_head,
        },
        tail: in_memory(
            match r.ring {
                Some(n) => n,
                None => r.stream_tail,
            },
        ),
    }
}

/// How the run is recorded.
pub fn options(r: Recording) -> (o: Options)
    ensures
        o == (Options {
            dir: r.log_dir,
            console: r.console,
            jsonl: !r.no_jsonl && !r.no_files,
            raw: !r.no_raw && !r.no_files,
            max_console_bytes: r.max_bytes,
            jsonl_max_data: r.jsonl_max_data,
            stream_limits: limits_of(r),
            max_run_bytes: r.max_run_bytes,
        }),
{
    let head: u64 = match r.ring {
        Some(n) => n,
        None => r.stream_head,
    };
    let tail: u64 = match r.ring {
        Some(n) => n,
        None => r.stream_tail,
    };
    let tail: usize = if tail > usize::MAX as u64 {
        usize::MAX
    } else {
        tail as usize
    };
    Options {
        dir: r.log_dir,
        console: r.console,
        jsonl: !r.no_jsonl && !r.no_files,
        raw: !r.no_raw && !r.no_files,
        max_console_bytes: r.max_bytes,
        jsonl_max_data: r.jsonl_max_data,
        stream_limits: Limits { head, tail },
        max_run_bytes: r.max_run_bytes,
    }
}

// ------------------------------------------------------------- laws

/// Profiles are looked up beside where the program was started before anywhere else,
/// then in the directories of the user, and last in those of the system.
pub proof fn a_checkout_wins(data_home: bool, home: bool, out: Vec<Candidate>)
    requires
        call_ensures(candidates, (data_home, home), out),
    ensures
        out@.first() == Candidate::Local,
        out@.last() == Candidate::Usr,
        out@[out@.len() - 2] == Candidate::UsrLocal,
        out@.contains(Candidate::DataHome) <==> data_home,
        out@.contains(Candidate::Home) <==> home,
        data_home ==> out@[1] == Candidate::DataHome,
        home ==> out@[out@.len() - 3] == Candidate::Home,
        out@.len() == 3 + (if data_home {
            1int
        } else {
            0
        }) + (if home {
            1int
        } else {
            0
        }),
{
    if data_home {
        assert(out@[1] == Candidate::DataHome);
    }
    if home {
        assert(out@[out@.len() - 3] == Candidate::Home);
    }
}

/// The directories have their usual places.
pub proof fn directories_have_their_places(c: Candidate)
    ensures
        c.path() == (match c {
            Candidate::Local => "profiles"@,
            Candidate::DataHome => "kirblasnoop/profiles"@,
            Candidate::Home => ".local/share/kirblasnoop/profiles"@,
            Candidate::UsrLocal => "/usr/local/share/kirblasnoop/profiles"@,
            Candidate::Usr => "/usr/share/kirblasnoop/profiles"@,
        }),
{
}

proof fn an_existing_one_is_the_first(found: Seq<bool>, from: int)
    requires
        0 <= from <= found.len(),
    ensures
        match existing_from(found, from) {
            Some(i) => from <= i < found.len() && found[i] && forall|j: int|
                from <= j < i ==> !#[trigger] found[j],
            None => forall|j: int| from <= j < found.len() ==> !#[trigger] found[j],
        },
    decreases found.len() - from,
{
    if from < found.len() && !found[from] {
        an_existing_one_is_the_first(found, from + 1);
    }
}

/// The directory that is taken exists and none in front of it does; where none
/// exists it is the first.
pub proof fn the_first_that_exists_is_taken(found: &Vec<bool>, at: usize)
    requires
        call_ensures(pick, (found,), at),
    ensures
        (exists|i: int| 0 <= i < found@.len() && #[trigger] found@[i]) ==> at < found@.len()
            && found@[at as int],
        forall|j: int| 0 <= j < at ==> !#[trigger] found@[j],
        (forall|j: int| 0 <= j < found@.len() ==> !#[trigger] found@[j]) ==> at == 0,
{
    an_existing_one_is_the_first(found@, 0);
}

/// A listener keeps what it says of itself, and has what goes for all where it says
/// nothing; one without a name is called by its transport and its place.
pub proof fn a_listener_keeps_what_it_says(
    listeners: &Vec<Listener>,
    d: &Defaults,
    plans: Result<Vec<Plan>, &'static str>,
    i: int,
)
    requires
        call_ensures(plan, (listeners, d), plans),
        0 <= i < listeners@.len(),
    ensures
        plans matches Ok(all) && all@.len() == listeners@.len() && {
            let l = listeners@[i];
            let p = all@[i];
            &&& p.proto == l.proto
            &&& p.bind@ == l.bind@
            &&& l.name matches Some(name) ==> p.name@ == name@
            &&& l.name is None ==> p.name@ == (match l.proto {
                Proto::Tcp => "tcp:"@,
                Proto::Udp => "udp:"@,
            }) + text::decimal(i as nat)
            &&& says_or_has(l.profile, d.profile, p.profile)
            &&& says_or_has(l.iface, d.iface, p.iface)
            &&& says_or_has(l.upstream, d.upstream, p.upstream)
        },
{
    reveal_strlit("tcp");
    reveal_strlit("udp");
    reveal_strlit("tcp:");
    reveal_strlit("udp:");
    reveal_strlit(":");
    let all = plans->Ok_0@;
    let l = listeners@[i];
    let p = all[i];
    assert(p@ == plan_of(l, i, *d));
    assert(p@.name == p.name@ && p@.bind == p.bind@);
    assert("tcp"@ + ":"@ =~= "tcp:"@);
    assert("udp"@ + ":"@ =~= "udp:"@);
    let n = text::decimal(i as nat);
    assert("tcp"@ + ":"@ + n =~= "tcp:"@ + n);
    assert("udp"@ + ":"@ + n =~= "udp:"@ + n);
    assert(p@.profile == text::shown(p.profile));
    assert(p@.iface == text::shown(p.iface));
    assert(p@.upstream == text::shown(p.upstream));
}

/// Whether something is what was said, or what goes without saying where nothing
/// was.
pub open spec fn says_or_has(said: Option<String>, other: Option<String>, has: Option<String>) -> bool {
    match (said, other) {
        (Some(s), _) => has matches Some(h) && h@ == s@,
        (None, Some(o)) => has matches Some(h) && h@ == o@,
        (None, None) => has is None,
    }
}

/// Without listeners there is nothing to run.
pub proof fn something_must_be_listened_on(
    listeners: &Vec<Listener>,
    d: &Defaults,
    plans: Result<Vec<Plan>, &'static str>,
)
    requires
        call_ensures(plan, (listeners, d), plans),
    ensures
        plans is Err <==> listeners@.len() == 0,
{
}

/// Only profiles that some listener names are loaded.
pub proof fn no_other_profile_is_loaded(plans: Seq<Plan>, n: nat, k: int)
    requires
        n <= plans.len(),
        0 <= k < wanted(plans, n).len(),
    ensures
        exists|i: int|
            0 <= i < n && ((#[trigger] plans[i]).profile matches Some(name) && name@ == wanted(
                plans,
                n,
            )[k]),
    decreases n,
{
    if n > 0 {
        let before = wanted(plans, (n - 1) as nat);
        if k < before.len() {
            no_other_profile_is_loaded(plans, (n - 1) as nat, k);
            let i = choose|i: int|
                0 <= i < n - 1 && ((#[trigger] plans[i]).profile matches Some(name) && name@
                    == before[k]);
            assert(plans[i].profile->0@ == wanted(plans, n)[k]);
        } else {
            assert(plans[n - 1].profile->0@ == wanted(plans, n)[k]);
        }
    }
}

/// What is recorded is what was asked for: a file sink only where neither it nor all
/// of them were switched off, and both ends of a stream by the ring where there is
/// one.
pub proof fn recording_is_as_asked_for(r: Recording, o: Options)
    requires
        call_ensures(options, (r,), o),
    ensures
        o.dir@ == r.log_dir@,
        o.console == r.console,
        o.jsonl <==> !(r.no_jsonl || r.no_files),
        o.raw <==> !(r.no_raw || r.no_files),
        o.max_console_bytes == r.max_bytes,
        o.jsonl_max_data == r.jsonl_max_data,
        o.max_run_bytes == r.max_run_bytes,
        r.ring matches Some(n) ==> o.stream_limits.head == n && (n <= usize::MAX
            ==> o.stream_limits.tail == n),
        r.ring is None ==> o.stream_limits.head == r.stream_head && (r.stream_tail <= usize::MAX
            ==> o.stream_limits.tail == r.stream_tail),
{
}

/// A udp listener with an upstream is said not to forward, and no other listener is.
pub proof fn only_tcp_forwards(p: &Plan, line: Option<String>)
    requires
        call_ensures(unforwarded, (p,), line),
    ensures
        line is Some <==> p.proto == Proto::Udp && p.upstream is Some,
{
}

/// A run has failed when something failed and nothing is left.
pub proof fn a_run_fails_when_nothing_is_left(failed: usize, left: usize, b: bool)
    requires
        call_ensures(all_failed, (failed, left), b),
    ensures
        b <==> failed > 0 && left == 0,
{
}

} // verus!
