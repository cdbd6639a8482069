//! What holds of every run.
use super::Dir;
use super::logger;
use crate::text;
use vstd::prelude::*;

verus! {

proof fn zeros_count_for_nothing(s: Seq<char>, n: nat)
    ensures
        text::digits_value(text::run_of('0', n) + s) == text::digits_value(s),
    decreases s.len(), n,
{
    let t = text::run_of('0', n) + s;
    if s.len() > 0 {
        zeros_count_for_nothing(s.drop_last(), n);
        assert(t.drop_last() =~= text::run_of('0', n) + s.drop_last());
    } else if n > 0 {
        zeros_count_for_nothing(s, (n - 1) as nat);
        assert(t.drop_last() =~= text::run_of('0', (n - 1) as nat) + s);
        assert(t.last() == '0');
    } else {
        assert(t =~= s);
    }
}

/// The front of the names of a connection's files: its number, brought up to a
/// width.
spec fn number_of(conn: u64) -> Seq<char> {
    text::pad_left(text::decimal(conn as nat), 4, '0')
}

proof fn numbers_tell_apart(conn: u64)
    ensures
        text::all_digits(number_of(conn)),
        text::digits_value(number_of(conn)) == conn,
{
    let d = text::decimal(conn as nat);
    text::decimal_reads_back(conn as nat);
    if d.len() < 4 {
        let n = (4 - d.len()) as nat;
        zeros_count_for_nothing(d, n);
        let s = number_of(conn);
        assert forall|i: int| 0 <= i < s.len() implies text::is_digit(#[trigger] s[i]) by {
            if i >= n {
                assert(s[i] == d[i - n]);
            }
        }
    }
}

proof fn stems_tell_connections_apart(a: Seq<char>, b: Seq<char>, c: u64, d: u64)
    requires
        a == b,
        number_of(c).len() < a.len(),
        number_of(d).len() < b.len(),
        a.take(number_of(c).len() as int) == number_of(c),
        b.take(number_of(d).len() as int) == number_of(d),
        a[number_of(c).len() as int] == '-',
        b[number_of(d).len() as int] == '-',
    ensures
        c == d,
{
    numbers_tell_apart(c);
    numbers_tell_apart(d);
    let m = number_of(c).len() as int;
    let n = number_of(d).len() as int;
    if m < n {
        assert(text::is_digit(number_of(d)[m]));
        assert(b.take(n)[m] == b[m]);
    } else if n < m {
        assert(text::is_digit(number_of(c)[n]));
        assert(a.take(m)[n] == a[n]);
    }
}

proof fn a_stem_begins_with_its_number(conn: u64, proto: Seq<char>, peer: Seq<char>, dir: Dir)
    ensures
        ({
            let s = logger::stem_of(conn, proto, peer, dir);
            let n = number_of(conn).len() as int;
            &&& n < s.len()
            &&& s.take(n) == number_of(conn)
            &&& s[n] == '-'
            &&& s.len() >= 3
            &&& s[s.len() - 1] == 'x'
            &&& s[s.len() - 2] == if dir == Dir::Rx {
                'r'
            } else {
                't'
            }
        }),
{
    reveal_strlit("-");
    reveal_strlit(".");
    reveal_strlit("rx");
    reveal_strlit("tx");
    let s = logger::stem_of(conn, proto, peer, dir);
    assert(s.take(number_of(conn).len() as int) =~= number_of(conn));
}

/// No two streams share a file, whatever the transports and the peers are: two
/// files have the same name only if they are the same end of the same direction of
/// the same connection.
pub proof fn no_two_streams_share_a_file(
    c: u64,
    cproto: Seq<char>,
    cpeer: Seq<char>,
    cdir: Dir,
    d: u64,
    dproto: Seq<char>,
    dpeer: Seq<char>,
    ddir: Dir,
)
    ensures
        ({
            let a = logger::stem_of(c, cproto, cpeer, cdir);
            let b = logger::stem_of(d, dproto, dpeer, ddir);
            &&& logger::head_file_of(a) == logger::head_file_of(b) ==> c == d && cdir == ddir
            &&& logger::tail_file_of(a) == logger::tail_file_of(b) ==> c == d && cdir == ddir
            &&& logger::head_file_of(a) != logger::tail_file_of(b)
        }),
{
    let a = logger::stem_of(c, cproto, cpeer, cdir);
    let b = logger::stem_of(d, dproto, dpeer, ddir);
    a_stem_begins_with_its_number(c, cproto, cpeer, cdir);
    a_stem_begins_with_its_number(d, dproto, dpeer, ddir);
    reveal_strlit(".bin");
    reveal_strlit(".tail.bin");
    let ah = logger::head_file_of(a);
    let bh = logger::head_file_of(b);
    let at = logger::tail_file_of(a);
    let bt = logger::tail_file_of(b);
    assert(ah.len() == a.len() + 4 && bh.len() == b.len() + 4);
    assert(at.len() == a.len() + 9 && bt.len() == b.len() + 9);
    if ah == bh {
        assert(a.len() == b.len());
        assert(a =~= ah.take(a.len() as int));
        assert(b =~= bh.take(b.len() as int));
        stems_tell_connections_apart(a, b, c, d);
    }
    if at == bt {
        assert(a.len() == b.len());
        assert(a =~= at.take(a.len() as int));
        assert(b =~= bt.take(b.len() as int));
        stems_tell_connections_apart(a, b, c, d);
    }
    if ah == bt {
        let n = ah.len() as int;
        assert(ah[n - 5] == a[a.len() - 1]);
        assert(bt[n - 5] == ".tail.bin"@[4]);
    }
}

/// A file of a stream stays in the directory of its run, whatever the peer is
/// called: its name holds no separator of paths.
pub proof fn a_file_stays_in_its_directory(conn: u64, proto: Seq<char>, peer: Seq<char>, dir: Dir)
    requires
        !proto.contains('/'),
    ensures
        !logger::head_file_of(logger::stem_of(conn, proto, peer, dir)).contains('/'),
        !logger::tail_file_of(logger::stem_of(conn, proto, peer, dir)).contains('/'),
{
    reveal_strlit("-");
    reveal_strlit(".");
    reveal_strlit("rx");
    reveal_strlit("tx");
    reveal_strlit(".bin");
    reveal_strlit(".tail.bin");
    let number = number_of(conn);
    let stem = logger::stem_of(conn, proto, peer, dir);
    let p = number.len() as int + 1;
    let q = p + proto.len() + 1;
    numbers_tell_apart(conn);
    assert forall|i: int| 0 <= i < stem.len() implies stem[i] != '/' by {
        if i < number.len() {
            assert(stem[i] == number[i]);
            assert(text::is_digit(number[i]));
        } else if p <= i < p + proto.len() {
            assert(stem[i] == proto[i - p]);
            assert(proto.contains(proto[i - p]));
        } else if q <= i < q + peer.len() {
            assert(stem[i] == logger::safe_char(peer[i - q]));
        }
    }
    let head = logger::head_file_of(stem);
    let tail = logger::tail_file_of(stem);
    assert forall|i: int| 0 <= i < head.len() implies head[i] != '/' by {
        if i < stem.len() {
            assert(head[i] == stem[i]);
        }
    }
    assert forall|i: int| 0 <= i < tail.len() implies tail[i] != '/' by {
        if i < stem.len() {
            assert(tail[i] == stem[i]);
        }
    }
}

/// Connections are numbered one after the other, and no number comes back before
/// all of them were used.
pub proof fn connections_are_told_apart(first: u64, i: int, j: int)
    requires
        0 <= i < j < 0x1_0000_0000_0000_0000,
    ensures
        logger::counted(logger::counted(first, i), 1) == logger::counted(first, i + 1),
        logger::counted(first, i) != logger::counted(first, j),
{
}

} // verus!
