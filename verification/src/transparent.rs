//! The netfilter rules for transparent capture, as text.
//!
//! They are printed and never applied, so that a hard kill can never strand a
//! firewall rule.
use crate::text;
use crate::text::push_decimal;
use vstd::prelude::*;

verus! {

/// Which packets a rule is about: those of a user, and of some ports only where
/// they are given.
pub open spec fn match_of(uid: Seq<char>, dport: Option<Seq<char>>) -> Seq<char> {
    "-p tcp -m owner --uid-owner "@ + uid + match dport {
        Some(ports) => " -m multiport --dports "@ + ports,
        None => Seq::empty(),
    }
}

/// Where a rule sends them.
pub open spec fn jump_of(port: u16) -> Seq<char> {
    "-j REDIRECT --to-ports "@ + text::decimal(port as nat)
}

/// Which destinations a rule leaves alone.
pub open spec fn skip_of(v6: bool, include_loopback: bool) -> Seq<char> {
    if include_loopback {
        Seq::empty()
    } else if v6 {
        " ! -d ::1/128"@
    } else {
        " ! -d 127.0.0.0/8"@
    }
}

/// A rule that is added or deleted, of one family or the other.
pub open spec fn rule_of(
    v6: bool,
    add: bool,
    port: u16,
    uid: Seq<char>,
    dport: Option<Seq<char>>,
    include_loopback: bool,
) -> Seq<char> {
    (if v6 {
        "sudo ip6tables -t nat -"@
    } else {
        "sudo iptables  -t nat -"@
    }) + (if add {
        "A"@
    } else {
        "D"@
    }) + " OUTPUT "@ + match_of(uid, dport) + skip_of(v6, include_loopback) + " "@ + jump_of(port)
        + "\n"@
}

/// The steps up to the rules.
pub open spec fn intro_of(port: u16, uid: Seq<char>) -> Seq<char> {
    "# transparent catch-all: every tcp connection made by uid '"@ + uid + "' lands in kls,\n"@
        + "# which recovers the real destination from conntrack via SO_ORIGINAL_DST.\n"@
        + "# nothing below is executed for you. read it, then run what you want.\n"@ + "\n"@
        + "# 1. a throwaway user to scope the redirect (once):\n"@
        + "sudo useradd --no-create-home --shell /usr/sbin/nologin "@ + uid + "\n\n"@
        + "# 2. start the vacuum on the catch-all port:\n"@ + "kls tcp:"@ + text::decimal(
        port as nat,
    ) + "\n\n"@ + "# 3. install the redirect:\n"@
}

/// The steps between the rules and their removal.
pub open spec fn middle_of(uid: Seq<char>) -> Seq<char> {
    "\n# 4. run the program under test as that user:\n"@ + "sudo -u "@ + uid
        + " ./the-unknown-binary\n\n"@ + "# 5. tear down (identical rules, -D instead of -A):\n"@
}

/// What is to be kept in mind.
pub open spec fn notes_of() -> Seq<char> {
    "\n# notes\n"@
        + "#   - scoping by --uid-owner is what keeps this off your own traffic. dropping\n"@
        + "#     it redirects every outbound tcp connection on the box, including this\n"@
        + "#     shell's. do not.\n"@
        + "#   - only affects locally-originated traffic (OUTPUT). to catch another host,\n"@
        + "#     put the rule in PREROUTING on the box that routes for it.\n"@
        + "#   - udp is not covered: REDIRECT does not carry the original destination for\n"@
        + "#     datagrams, that needs TPROXY. udp listeners still capture, just without\n"@
        + "#     the WANTED line.\n"@
        + "#   - conntrack must be loaded; the nat table pulls it in automatically."@
}

/// The whole text.
pub open spec fn transparent_of(
    port: u16,
    uid: Seq<char>,
    dport: Option<Seq<char>>,
    include_loopback: bool,
) -> Seq<char> {
    intro_of(port, uid) + rule_of(false, true, port, uid, dport, include_loopback) + rule_of(
        true,
        true,
        port,
        uid,
        dport,
        include_loopback,
    ) + middle_of(uid) + rule_of(false, false, port, uid, dport, include_loopback) + rule_of(
        true,
        false,
        port,
        uid,
        dport,
        include_loopback,
    ) + notes_of()
}

fn push_match(out: &mut String, uid: &str, dport: Option<&str>)
    ensures
        final(out)@ == old(out)@ + match_of(uid@, text::shown_str(dport)),
{
    out.append("-p tcp -m owner --uid-owner ");
    out.append(uid);
    if let Some(ports) = dport {
        out.append(" -m multiport --dports ");
        out.append(ports);
    }
    assert(out@ =~= old(out)@ + match_of(uid@, text::shown_str(dport)));
}

fn push_skip(out: &mut String, v6: bool, include_loopback: bool)
    ensures
        final(out)@ == old(out)@ + skip_of(v6, include_loopback),
{
    if !include_loopback {
        if v6 {
            out.append(" ! -d ::1/128");
        } else {
            out.append(" ! -d 127.0.0.0/8");
        }
    }
    assert(out@ =~= old(out)@ + skip_of(v6, include_loopback));
}

fn push_jump(out: &mut String, port: u16)
    ensures
        final(out)@ == old(out)@ + jump_of(port),
{
    out.append("-j REDIRECT --to-ports ");
    push_decimal(out, port as u64);
    assert(out@ =~= old(out)@ + jump_of(port));
}

fn push_rule(
    out: &mut String,
    v6: bool,
    add: bool,
    port: u16,
    uid: &str,
    dport: Option<&str>,
    include_loopback: bool,
)
    ensures
        final(out)@ == old(out)@ + rule_of(
            v6,
            add,
            port,
            uid@,
            text::shown_str(dport),
            include_loopback,
        ),
{
    if v6 {
        out.append("sudo ip6tables -t nat -");
    } else {
        out.append("sudo iptables  -t nat -");
    }
    if add {
        out.append("A");
    } else {
        out.append("D");
    }
    out.append(" OUTPUT ");
    push_match(out, uid, dport);
    push_skip(out, v6, include_loopback);
    out.append(" ");
    push_jump(out, port);
    out.append("\n");
    assert(out@ =~= old(out)@ + rule_of(
        v6,
        add,
        port,
        uid@,
        text::shown_str(dport),
        include_loopback,
    ));
}

fn push_intro(out: &mut String, port: u16, uid: &str)
    ensures
        final(out)@ == old(out)@ + intro_of(port, uid@),
{
    out.append("# transparent catch-all: every tcp connection made by uid '");
    out.append(uid);
    out.append("' lands in kls,\n");
    out.append("# which recovers the real destination from conntrack via SO_ORIGINAL_DST.\n");
    out.append("# nothing below is executed for you. read it, then run what you want.\n");
    out.append("\n");
    out.append("# 1. a throwaway user to scope the redirect (once):\n");
    out.append("sudo useradd --no-create-home --shell /usr/sbin/nologin ");
    out.append(uid);
    out.append("\n\n");
    out.append("# 2. start the vacuum on the catch-all port:\n");
    out.append("kls tcp:");
    push_decimal(out, port as u64);
    out.append("\n\n");
    out.append("# 3. install the redirect:\n");
    assert(out@ =~= old(out)@ + intro_of(port, uid@));
}

fn push_middle(out: &mut String, uid: &str)
    ensures
        final(out)@ == old(out)@ + middle_of(uid@),
{
    out.append("\n# 4. run the program under test as that user:\n");
    out.append("sudo -u ");
    out.append(uid);
    out.append(" ./the-unknown-binary\n\n");
    out.append("# 5. tear down (identical rules, -D instead of -A):\n");
    assert(out@ =~= old(out)@ + middle_of(uid@));
}

fn push_notes(out: &mut String)
    ensures
        final(out)@ == old(out)@ + notes_of(),
{
    out.append("\n# notes\n");
    out.append("#   - scoping by --uid-owner is what keeps this off your own traffic. dropping\n");
    out.append("#     it redirects every outbound tcp connection on the box, including this\n");
    out.append("#     shell's. do not.\n");
    out.append("#   - only affects locally-originated traffic (OUTPUT). to catch another host,\n");
    out.append("#     put the rule in PREROUTING on the box that routes for it.\n");
    out.append("#   - udp is not covered: REDIRECT does not carry the original destination for\n");
    out.append("#     datagrams, that needs TPROXY. udp listeners still capture, just without\n");
    out.append("#     the WANTED line.\n");
    out.append("#   - conntrack must be loaded; the nat table pulls it in automatically.");
    assert(out@ =~= old(out)@ + notes_of());
}

/// The rules for catch-all capture and how to use them.
pub fn transparent(port: u16, uid: &str, dport: Option<&str>, include_loopback: bool) -> (out: String)
    ensures
        out@ == transparent_of(port, uid@, text::shown_str(dport), include_loopback),
{
    let mut out = String::new();
    push_intro(&mut out, port, uid);
    push_rule(&mut out, false, true, port, uid, dport, include_loopback);
    push_rule(&mut out, true, true, port, uid, dport, include_loopback);
    push_middle(&mut out, uid);
    push_rule(&mut out, false, false, port, uid, dport, include_loopback);
    push_rule(&mut out, true, false, port, uid, dport, include_loopback);
    push_notes(&mut out);
    assert(out@ =~= transparent_of(port, uid@, text::shown_str(dport), include_loopback));
    out
}

/// The rules that tear the redirect down are those that install it, up to the one
/// letter that tells them apart.
pub proof fn teardown_mirrors_the_install(
    v6: bool,
    port: u16,
    uid: Seq<char>,
    dport: Option<Seq<char>>,
    include_loopback: bool,
)
    ensures
        ({
            let add = rule_of(v6, true, port, uid, dport, include_loopback);
            let remove = rule_of(v6, false, port, uid, dport, include_loopback);
            &&& add.len() == remove.len()
            &&& add[23] == 'A'
            &&& remove[23] == 'D'
            &&& forall|i: int| 0 <= i < add.len() && i != 23 ==> add[i] == remove[i]
        }),
{
    reveal_strlit("sudo ip6tables -t nat -");
    reveal_strlit("sudo iptables  -t nat -");
    reveal_strlit("A");
    reveal_strlit("D");
}

/// A rule redirects the tcp connections of one user, to the ports given or to all,
/// to the port that is listened on, and leaves the machine's own addresses alone
/// unless it is told not to.
#[verifier::rlimit(50)]
pub proof fn a_rule_is_scoped(
    add: bool,
    port: u16,
    uid: Seq<char>,
    dport: Option<Seq<char>>,
    include_loopback: bool,
)
    ensures
        ({
            let verb = if add {
                "A"@
            } else {
                "D"@
            };
            let who = " OUTPUT -p tcp -m owner --uid-owner "@ + uid;
            let ports = match dport {
                Some(p) => " -m multiport --dports "@ + p,
                None => Seq::empty(),
            };
            let end = " -j REDIRECT --to-ports "@ + text::decimal(port as nat) + "\n"@;
            &&& rule_of(false, add, port, uid, dport, include_loopback)
                == "sudo iptables  -t nat -"@ + verb + who + ports + (if include_loopback {
                Seq::empty()
            } else {
                " ! -d 127.0.0.0/8"@
            }) + end
            &&& rule_of(true, add, port, uid, dport, include_loopback)
                == "sudo ip6tables -t nat -"@ + verb + who + ports + (if include_loopback {
                Seq::empty()
            } else {
                " ! -d ::1/128"@
            }) + end
        }),
{
    let verb = if add {
        "A"@
    } else {
        "D"@
    };
    let who = " OUTPUT -p tcp -m owner --uid-owner "@ + uid;
    let ports = match dport {
        Some(p) => " -m multiport --dports "@ + p,
        None => Seq::empty(),
    };
    let end = " -j REDIRECT --to-ports "@ + text::decimal(port as nat) + "\n"@;
    let skip4 = if include_loopback {
        Seq::empty()
    } else {
        " ! -d 127.0.0.0/8"@
    };
    let skip6 = if include_loopback {
        Seq::empty()
    } else {
        " ! -d ::1/128"@
    };
    the_parts_join(uid, dport, port);
    assert(rule_of(false, add, port, uid, dport, include_loopback) =~= "sudo iptables  -t nat -"@
        + verb + (" OUTPUT "@ + match_of(uid, dport)) + skip4 + (" "@ + jump_of(port) + "\n"@));
    assert(rule_of(true, add, port, uid, dport, include_loopback) =~= "sudo ip6tables -t nat -"@
        + verb + (" OUTPUT "@ + match_of(uid, dport)) + skip6 + (" "@ + jump_of(port) + "\n"@));
    assert("sudo iptables  -t nat -"@ + verb + (who + ports) + skip4 + end
        =~= "sudo iptables  -t nat -"@ + verb + who + ports + skip4 + end);
    assert("sudo ip6tables -t nat -"@ + verb + (who + ports) + skip6 + end
        =~= "sudo ip6tables -t nat -"@ + verb + who + ports + skip6 + end);
}

proof fn the_parts_join(uid: Seq<char>, dport: Option<Seq<char>>, port: u16)
    ensures
        " OUTPUT "@ + match_of(uid, dport) == " OUTPUT -p tcp -m owner --uid-owner "@ + uid + (match dport {
            Some(p) => " -m multiport --dports "@ + p,
            None => Seq::empty(),
        }),
        " "@ + jump_of(port) + "\n"@ == " -j REDIRECT --to-ports "@ + text::decimal(port as nat)
            + "\n"@,
{
    reveal_strlit(" OUTPUT ");
    reveal_strlit("-p tcp -m owner --uid-owner ");
    reveal_strlit(" OUTPUT -p tcp -m owner --uid-owner ");
    reveal_strlit(" ");
    reveal_strlit("-j REDIRECT --to-ports ");
    reveal_strlit(" -j REDIRECT --to-ports ");
    assert(" OUTPUT "@ + "-p tcp -m owner --uid-owner "@ =~= " OUTPUT -p tcp -m owner --uid-owner "@);
    assert(" "@ + "-j REDIRECT --to-ports "@ =~= " -j REDIRECT --to-ports "@);
    let ports = match dport {
        Some(p) => " -m multiport --dports "@ + p,
        None => Seq::empty(),
    };
    assert(" OUTPUT "@ + match_of(uid, dport) =~= (" OUTPUT "@ + "-p tcp -m owner --uid-owner "@)
        + uid + ports);
    assert(" "@ + jump_of(port) + "\n"@ =~= (" "@ + "-j REDIRECT --to-ports "@) + text::decimal(
        port as nat,
    ) + "\n"@);
}

/// The text has the rules of both families, once to add them and then, in the same
/// order, to delete them, and nothing but comments and commands for one user around
/// them.
pub proof fn the_rules_stand_in_order(
    port: u16,
    uid: Seq<char>,
    dport: Option<Seq<char>>,
    include_loopback: bool,
)
    ensures
        ({
            let add4 = rule_of(false, true, port, uid, dport, include_loopback);
            let add6 = rule_of(true, true, port, uid, dport, include_loopback);
            let del4 = rule_of(false, false, port, uid, dport, include_loopback);
            let del6 = rule_of(true, false, port, uid, dport, include_loopback);
            transparent_of(port, uid, dport, include_loopback) == intro_of(port, uid) + (add4 + add6)
                + middle_of(uid) + (del4 + del6) + notes_of()
        }),
{
    let add4 = rule_of(false, true, port, uid, dport, include_loopback);
    let add6 = rule_of(true, true, port, uid, dport, include_loopback);
    let del4 = rule_of(false, false, port, uid, dport, include_loopback);
    let del6 = rule_of(true, false, port, uid, dport, include_loopback);
    assert(transparent_of(port, uid, dport, include_loopback) =~= intro_of(port, uid) + (add4 + add6)
        + middle_of(uid) + (del4 + del6) + notes_of());
}

/// `transparent` prints the rules.
pub proof fn the_rules_are_printed(
    port: u16,
    uid: &str,
    dport: Option<&str>,
    include_loopback: bool,
    out: String,
)
    requires
        call_ensures(transparent, (port, uid, dport, include_loopback), out),
    ensures
        dport is None ==> out@ == transparent_of(port, uid@, None, include_loopback),
        dport matches Some(p) ==> out@ == transparent_of(port, uid@, Some(p@), include_loopback),
{
}

/// Whether a text holds a part.
pub open spec fn stands_in(t: Seq<char>, part: Seq<char>) -> bool {
    exists|at: int| text::occurs_at(t, part, at)
}

proof fn a_part_stands(front: Seq<char>, part: Seq<char>, back: Seq<char>)
    ensures
        stands_in(front + part + back, part),
{
    let t = front + part + back;
    assert(t.subrange(front.len() as int, (front.len() + part.len()) as int) =~= part);
    assert(text::occurs_at(t, part, front.len() as int));
}

proof fn it_stands_in_more(front: Seq<char>, t: Seq<char>, back: Seq<char>, part: Seq<char>)
    requires
        stands_in(t, part),
    ensures
        stands_in(t + back, part),
        stands_in(front + t, part),
{
    let at = choose|at: int| text::occurs_at(t, part, at);
    assert((t + back).subrange(at, at + part.len()) =~= t.subrange(at, at + part.len()));
    assert(text::occurs_at(t + back, part, at));
    let n = front.len() as int;
    assert((front + t).subrange(n + at, n + at + part.len()) =~= t.subrange(at, at + part.len()));
    assert(text::occurs_at(front + t, part, n + at));
}

proof fn a_line_stands(
    front: Seq<char>,
    word: Seq<char>,
    what: Seq<char>,
    end: Seq<char>,
    back: Seq<char>,
)
    ensures
        stands_in(front + word + what + (end + back), word + what + end),
{
    a_part_stands(front, word + what + end, back);
    assert(front + (word + what + end) + back =~= front + word + what + (end + back));
}

proof fn the_intro_names_user_and_port(port: u16, uid: Seq<char>)
    ensures
        stands_in(
            intro_of(port, uid),
            "sudo useradd --no-create-home --shell /usr/sbin/nologin "@ + uid + "\n"@,
        ),
        stands_in(intro_of(port, uid), "kls tcp:"@ + text::decimal(port as nat) + "\n"@),
{
    let none = Seq::<char>::empty();
    let a = "# transparent catch-all: every tcp connection made by uid '"@ + uid
        + "' lands in kls,\n"@
        + "# which recovers the real destination from conntrack via SO_ORIGINAL_DST.\n"@
        + "# nothing below is executed for you. read it, then run what you want.\n"@ + "\n"@
        + "# 1. a throwaway user to scope the redirect (once):\n"@;
    let word = "sudo useradd --no-create-home --shell /usr/sbin/nologin "@;
    let user = word + uid + "\n"@;
    let n = text::decimal(port as nat);
    let b = a + word + uid + "\n\n"@;
    let c = b + "# 2. start the vacuum on the catch-all port:\n"@;
    let d = c + "kls tcp:"@ + n + "\n\n"@;
    reveal_strlit("\n");
    reveal_strlit("\n\n");
    assert("\n"@ + "\n"@ =~= "\n\n"@);
    a_line_stands(a, word, uid, "\n"@, "\n"@);
    it_stands_in_more(none, b, "# 2. start the vacuum on the catch-all port:\n"@, user);
    it_stands_in_more(none, c, "kls tcp:"@, user);
    it_stands_in_more(none, c + "kls tcp:"@, n, user);
    it_stands_in_more(none, c + "kls tcp:"@ + n, "\n\n"@, user);
    it_stands_in_more(none, d, "# 3. install the redirect:\n"@, user);
    a_line_stands(c, "kls tcp:"@, n, "\n"@, "\n"@);
    it_stands_in_more(none, d, "# 3. install the redirect:\n"@, "kls tcp:"@ + n + "\n"@);
}

proof fn the_middle_names_the_user(uid: Seq<char>)
    ensures
        stands_in(middle_of(uid), "sudo -u "@ + uid + " ./the-unknown-binary\n"@),
{
    let none = Seq::<char>::empty();
    let a = "\n# 4. run the program under test as that user:\n"@;
    let run = "sudo -u "@ + uid + " ./the-unknown-binary\n"@;
    assert(" ./the-unknown-binary\n"@ + "\n"@ =~= " ./the-unknown-binary\n\n"@) by {
        reveal_strlit("\n");
        reveal_strlit(" ./the-unknown-binary\n");
        reveal_strlit(" ./the-unknown-binary\n\n");
    }
    a_line_stands(a, "sudo -u "@, uid, " ./the-unknown-binary\n"@, "\n"@);
    let b = a + "sudo -u "@ + uid + " ./the-unknown-binary\n\n"@;
    it_stands_in_more(none, b, "# 5. tear down (identical rules, -D instead of -A):\n"@, run);
}

/// The steps make the user that the rules are scoped to, start the listener on the
/// port that the rules redirect to, and run the program as that user.
#[verifier::rlimit(50)]
pub proof fn the_steps_agree_with_the_rules(
    port: u16,
    uid: &str,
    dport: Option<&str>,
    include_loopback: bool,
    out: String,
)
    requires
        call_ensures(transparent, (port, uid, dport, include_loopback), out),
    ensures
        stands_in(
            out@,
            "sudo useradd --no-create-home --shell /usr/sbin/nologin "@ + uid@ + "\n"@,
        ),
        stands_in(out@, "kls tcp:"@ + text::decimal(port as nat) + "\n"@),
        stands_in(out@, "sudo -u "@ + uid@ + " ./the-unknown-binary\n"@),
{
    let d = text::shown_str(dport);
    let none = Seq::<char>::empty();
    let user = "sudo useradd --no-create-home --shell /usr/sbin/nologin "@ + uid@ + "\n"@;
    let start = "kls tcp:"@ + text::decimal(port as nat) + "\n"@;
    let run = "sudo -u "@ + uid@ + " ./the-unknown-binary\n"@;
    let add4 = rule_of(false, true, port, uid@, d, include_loopback);
    let add6 = rule_of(true, true, port, uid@, d, include_loopback);
    let del4 = rule_of(false, false, port, uid@, d, include_loopback);
    let del6 = rule_of(true, false, port, uid@, d, include_loopback);
    let intro = intro_of(port, uid@);
    let middle = middle_of(uid@);
    the_intro_names_user_and_port(port, uid@);
    the_middle_names_the_user(uid@);
    it_stands_in_more(none, intro, add4, user);
    it_stands_in_more(none, intro + add4, add6, user);
    it_stands_in_more(none, intro + add4 + add6, middle, user);
    it_stands_in_more(none, intro, add4, start);
    it_stands_in_more(none, intro + add4, add6, start);
    it_stands_in_more(none, intro + add4 + add6, middle, start);
    it_stands_in_more(intro + add4 + add6, middle, none, run);
    let t = intro + add4 + add6 + middle;
    it_stands_in_more(none, t, del4, user);
    it_stands_in_more(none, t + del4, del6, user);
    it_stands_in_more(none, t + del4 + del6, notes_of(), user);
    it_stands_in_more(none, t, del4, start);
    it_stands_in_more(none, t + del4, del6, start);
    it_stands_in_more(none, t + del4 + del6, notes_of(), start);
    it_stands_in_more(none, t, del4, run);
    it_stands_in_more(none, t + del4, del6, run);
    it_stands_in_more(none, t + del4 + del6, notes_of(), run);
}

} // verus!
