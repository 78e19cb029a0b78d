use vstd::prelude::*;
use crate::plugins::cli_crypto::occurs_at;
use crate::text::{chars_of, concat, decimal, decimal_string, str_eq};

verus! {

/// A client's id: `C_<ts>`, from the time of the first event it saw.
pub fn client_id_for(ts: u64) -> (s: String)
    ensures
        s@ == "C_"@ + decimal(ts as nat),
{
    concat("C_", decimal_string(ts).as_str())
}

/// Where a client writes a message it sends: `/net/<ts>_<client>.msg`.
pub fn outgoing_path(ts: u64, client_id: &str) -> (s: String)
    ensures
        s@ == "/net/"@ + decimal(ts as nat) + "_"@ + client_id@ + ".msg"@,
{
    let a = concat("/net/", decimal_string(ts).as_str());
    let b = concat(a.as_str(), "_");
    let c = concat(b.as_str(), client_id);
    concat(c.as_str(), ".msg")
}

/// The value of a string of decimal digits.
pub open spec fn digits_value(ds: Seq<char>) -> nat
    decreases ds.len(),
{
    if ds.len() == 0 {
        0
    } else {
        digits_value(ds.drop_last()) * 10 + ((ds.last() as u32) - 48) as nat
    }
}

/// All characters are ASCII digits.
pub open spec fn all_digits(ds: Seq<char>) -> bool {
    forall|i: int| 0 <= i < ds.len() ==> '0' <= #[trigger] ds[i] <= '9'
}

/// `str::parse::<u64>`: an optional `+`, then at least one digit, and a
/// value that fits.
pub open spec fn parse_u64_spec(s: Seq<char>) -> Option<u64> {
    let ds = if s.len() > 0 && s[0] == '+' { s.drop_first() } else { s };
    if ds.len() > 0 && all_digits(ds) && digits_value(ds) <= u64::MAX {
        Some(digits_value(ds) as u64)
    } else {
        None
    }
}

/// Reads an unsigned number.
pub fn parse_u64(s: &str) -> (r: Option<u64>)
    ensures
        r == parse_u64_spec(s@),
{
    let cs = chars_of(s);
    let start: usize = if cs.len() > 0 && cs[0] == '+' { 1 } else { 0 };
    let ghost ds = if s@.len() > 0 && s@[0] == '+' { s@.drop_first() } else { s@ };
    assert(ds =~= cs@.subrange(start as int, cs@.len() as int));
    if start >= cs.len() {
        assert(ds.len() == 0);
        return None;
    }
    let mut v: u64 = 0;
    let mut i: usize = start;
    while i < cs.len()
        invariant
            start <= i <= cs@.len(),
            cs@ == s@,
            ds == (if s@.len() > 0 && s@[0] == '+' { s@.drop_first() } else { s@ }),
            ds == cs@.subrange(start as int, cs@.len() as int),
            all_digits(cs@.subrange(start as int, i as int)),
            v as nat == digits_value(cs@.subrange(start as int, i as int)),
        decreases cs@.len() - i,
    {
        let c = cs[i];
        let ghost pre = cs@.subrange(start as int, i as int);
        let ghost next = cs@.subrange(start as int, i + 1);
        assert(next.drop_last() =~= pre);
        if c < '0' || c > '9' {
            proof {
                assert(ds[i - start] == c);
                assert(!('0' <= ds[i - start] <= '9'));
                assert(!all_digits(ds));
            }
            return None;
        }
        let d: u64 = (c as u32 - 48) as u64;
        if v > (u64::MAX - d) / 10 {
            proof {
                assert(digits_value(next) == v * 10 + d);
                assert(digits_value(next) > u64::MAX) by (nonlinear_arith)
                    requires
                        v > (u64::MAX - d) / 10,
                        digits_value(next) == v * 10 + d,
                        d <= 9,
                ;
                assert(ds.take((i + 1 - start) as int) =~= next);
                assert(all_digits(next)) by {
                    assert forall|j: int| 0 <= j < next.len() implies '0' <= #[trigger] next[j] <= '9' by {
                        if j < next.len() - 1 {
                            assert(next[j] == pre[j]);
                        }
                    }
                }
                lemma_digits_monotone(ds, (i + 1 - start) as int);
            }
            return None;
        }
        proof {
            assert(v * 10 + d <= u64::MAX) by (nonlinear_arith)
                requires
                    v <= (u64::MAX - d) / 10,
                    d <= 9,
            ;
        }
        v = v * 10 + d;
        i = i + 1;
    }
    proof {
        assert(cs@.subrange(start as int, i as int) =~= ds);
    }
    Some(v)
}

proof fn lemma_digits_monotone(ds: Seq<char>, k: int)
    requires
        0 <= k <= ds.len(),
        all_digits(ds.take(k)),
    ensures
        all_digits(ds) ==> digits_value(ds) >= digits_value(ds.take(k)),
    decreases ds.len() - k,
{
    if k < ds.len() && all_digits(ds) {
        assert(ds.take(k + 1).drop_last() =~= ds.take(k));
        assert(all_digits(ds.take(k + 1)));
        lemma_digits_monotone(ds, k + 1);
        assert(digits_value(ds.take(k + 1)) >= digits_value(ds.take(k))) by (nonlinear_arith)
            requires
                digits_value(ds.take(k + 1)) == digits_value(ds.take(k)) * 10 + ((ds.take(k + 1).last() as u32) - 48) as nat,
        ;
    } else if k == ds.len() {
        assert(ds.take(k) =~= ds);
    }
}

/// The text before the first `_` (all of it when there is none).
pub open spec fn before_underscore(s: Seq<char>) -> Seq<char>
    decreases s.len(),
{
    if s.len() == 0 || s[0] == '_' {
        seq![]
    } else {
        seq![s[0]] + before_underscore(s.drop_first())
    }
}

/// The time a message file's name starts with: the number before its
/// first `_`.
pub open spec fn file_stamp(name: Seq<char>) -> Option<u64> {
    parse_u64_spec(before_underscore(name))
}

/// A message file from another client newer than `last`.
pub open spec fn wanted(name: Seq<char>, client: Seq<char>, last: u64) -> bool {
    &&& name.len() >= 4 && name.subrange(name.len() - 4, name.len() as int) == ".msg"@
    &&& !(exists|i: int| #[trigger] occurs_at(name, client, i))
    &&& file_stamp(name) matches Some(t) && t > last
}

/// A client never takes a file whose name holds its own id, such as the
/// `<ts>_<client>.msg` it writes itself.
pub proof fn lemma_own_files_never_taken(pre: Seq<char>, client: Seq<char>, post: Seq<char>, last: u64)
    ensures
        !wanted(pre + client + post, client, last),
{
    let name = pre + client + post;
    assert(name.subrange(pre.len() as int, (pre.len() + client.len()) as int) =~= client);
    assert(occurs_at(name, client, pre.len() as int));
}

/// No file is taken by two ticks: once a tick has taken a file, whose time
/// is at most the tick's new last time, no later tick (whose last time is
/// at least that) takes it again.
pub proof fn lemma_taken_once(name: Seq<char>, client: Seq<char>, taken_upto: u64, later_last: u64)
    requires
        file_stamp(name) matches Some(t) && t <= taken_upto,
        later_last >= taken_upto,
    ensures
        !wanted(name, client, later_last),
{
}

fn prefix_before_underscore(s: &str) -> (r: String)
    ensures
        r@ == before_underscore(s@),
{
    let cs = chars_of(s);
    let mut out = String::new();
    let mut i: usize = 0;
    assert(cs@.subrange(0, cs@.len() as int) =~= cs@);
    while i < cs.len() && cs[i] != '_'
        invariant
            i <= cs@.len(),
            cs@ == s@,
            forall|j: int| 0 <= j < i ==> cs@[j] != '_',
            out@ + before_underscore(cs@.subrange(i as int, cs@.len() as int)) == before_underscore(s@),
        decreases cs@.len() - i,
    {
        let ghost rest = cs@.subrange(i as int, cs@.len() as int);
        assert(rest[0] == cs@[i as int]);
        assert(rest.drop_first() =~= cs@.subrange(i + 1, cs@.len() as int));
        let ghost before = out@;
        crate::text::string_push(&mut out, cs[i]);
        assert(out@ + before_underscore(rest.drop_first()) =~= before + (seq![cs@[i as int]] + before_underscore(rest.drop_first())));
        i = i + 1;
    }
    proof {
        let rest = cs@.subrange(i as int, cs@.len() as int);
        if i < cs@.len() {
            assert(rest[0] == '_');
        }
        assert(out@ + Seq::<char>::empty() =~= out@);
    }
    out
}

fn ends_with_msg(s: &str) -> (r: bool)
    ensures
        r == (s@.len() >= 4 && s@.subrange(s@.len() - 4, s@.len() as int) == ".msg"@),
{
    let cs = chars_of(s);
    proof {
        reveal_strlit(".msg");
    }
    if cs.len() < 4 {
        return false;
    }
    let n = cs.len();
    let r = cs[n - 4] == '.' && cs[n - 3] == 'm' && cs[n - 2] == 's' && cs[n - 1] == 'g';
    proof {
        let t = s@.subrange(s@.len() - 4, s@.len() as int);
        assert(t[0] == cs@[n - 4] && t[1] == cs@[n - 3] && t[2] == cs@[n - 2] && t[3] == cs@[n - 1]);
        if r {
            assert(t =~= ".msg"@);
        }
    }
    r
}

fn contains_text(s: &str, pat: &str) -> (r: bool)
    ensures
        r == exists|i: int| #[trigger] occurs_at(s@, pat@, i),
{
    let cs = chars_of(s);
    let ps = chars_of(pat);
    if ps.len() == 0 {
        assert(s@.subrange(0, 0) =~= pat@);
        assert(occurs_at(s@, pat@, 0));
        return true;
    }
    let n = cs.len();
    if ps.len() > cs.len() {
        proof {
            assert forall|i: int| !#[trigger] occurs_at(s@, pat@, i) by {}
        }
        return false;
    }
    let mut i: usize = 0;
    while i <= cs.len() - ps.len()
        invariant
            ps@.len() <= cs@.len(),
            0 < ps@.len(),
            n == cs@.len(),
            i <= cs@.len() - ps@.len() + 1,
            cs@ == s@,
            ps@ == pat@,
            forall|j: int| 0 <= j < i ==> !#[trigger] occurs_at(s@, pat@, j),
        decreases cs@.len() - ps@.len() + 1 - i,
    {
        let mut k: usize = 0;
        let mut ok = true;
        while k < ps.len()
            invariant
                k <= ps@.len(),
                n == cs@.len(),
                i + ps@.len() <= cs@.len(),
                ok ==> forall|j: int| 0 <= j < k ==> cs@[i + j] == ps@[j],
                !ok ==> !occurs_at(s@, pat@, i as int),
                cs@ == s@,
                ps@ == pat@,
            decreases ps@.len() - k,
        {
            if ok && cs[i + k] != ps[k] {
                ok = false;
                assert(s@.subrange(i as int, i + pat@.len())[k as int] != pat@[k as int]);
            }
            k = k + 1;
        }
        if ok {
            assert(s@.subrange(i as int, i + pat@.len()) =~= pat@);
            assert(occurs_at(s@, pat@, i as int));
            return true;
        }
        i = i + 1;
    }
    proof {
        assert forall|j: int| !#[trigger] occurs_at(s@, pat@, j) by {
            if j >= i {
                assert(!occurs_at(s@, pat@, j));
            }
        }
    }
    false
}

/// The files to take from a directory listing, by index in listing order,
/// and the newest time among them (`last` when none is newer).
pub fn select_incoming(names: &Vec<String>, client_id: &str, last_ts: u64) -> (r: (Vec<usize>, u64))
    ensures
        forall|k: int| 0 <= k < r.0@.len() ==> (#[trigger] r.0@[k] as int) < names@.len() && wanted(
            names@[r.0@[k] as int]@,
            client_id@,
            last_ts,
        ),
        forall|i: int| 0 <= i < names@.len() && wanted(names@[i]@, client_id@, last_ts) ==> exists|k: int|
            0 <= k < r.0@.len() && #[trigger] r.0@[k] == i,
        forall|k1: int, k2: int| 0 <= k1 < k2 < r.0@.len() ==> r.0@[k1] < r.0@[k2],
        r.1 >= last_ts,
        forall|k: int| 0 <= k < r.0@.len() ==> (file_stamp(names@[#[trigger] r.0@[k] as int]@) matches Some(t) && t <= r.1),
        r.1 > last_ts ==> exists|k: int| 0 <= k < r.0@.len() && file_stamp(names@[#[trigger] r.0@[k] as int]@) == Some(r.1),
{
    let mut picks: Vec<usize> = Vec::new();
    let mut max_ts = last_ts;
    let mut i: usize = 0;
    while i < names.len()
        invariant
            i <= names@.len(),
            forall|k: int| 0 <= k < picks@.len() ==> (#[trigger] picks@[k] as int) < i && wanted(
                names@[picks@[k] as int]@,
                client_id@,
                last_ts,
            ),
            forall|j: int| 0 <= j < i && wanted(names@[j]@, client_id@, last_ts) ==> exists|k: int|
                0 <= k < picks@.len() && #[trigger] picks@[k] == j,
            forall|k1: int, k2: int| 0 <= k1 < k2 < picks@.len() ==> picks@[k1] < picks@[k2],
            max_ts >= last_ts,
            forall|k: int| 0 <= k < picks@.len() ==> (file_stamp(names@[#[trigger] picks@[k] as int]@) matches Some(t)
                && t <= max_ts),
            max_ts > last_ts ==> exists|k: int| 0 <= k < picks@.len() && file_stamp(names@[#[trigger] picks@[k] as int]@)
                == Some(max_ts),
        decreases names@.len() - i,
    {
        let name = names[i].as_str();
        let stamp = parse_u64(prefix_before_underscore(name).as_str());
        let take = ends_with_msg(name) && !contains_text(name, client_id) && match stamp {
            Some(t) => t > last_ts,
            None => false,
        };
        if take {
            let t = match stamp {
                Some(t) => t,
                None => 0,
            };
            let ghost before = picks@;
            picks.push(i);
            proof {
                assert(picks@[picks@.len() - 1] == i);
                assert forall|j: int| 0 <= j < i + 1 && wanted(names@[j]@, client_id@, last_ts) implies exists|k: int|
                    0 <= k < picks@.len() && #[trigger] picks@[k] == j by {
                    if j < i {
                        let k = choose|k: int| 0 <= k < before.len() && #[trigger] before[k] == j;
                        assert(picks@[k] == j);
                    } else {
                        assert(picks@[picks@.len() - 1] == j);
                    }
                }
                if max_ts > last_ts {
                    let k = choose|k: int| 0 <= k < before.len() && file_stamp(names@[#[trigger] before[k] as int]@)
                        == Some(max_ts);
                    assert(picks@[k] == before[k]);
                }
            }
            if t > max_ts {
                max_ts = t;
                proof {
                    assert(file_stamp(names@[picks@[picks@.len() - 1] as int]@) == Some(max_ts));
                }
            }
        } else {
            proof {
                assert(!wanted(names@[i as int]@, client_id@, last_ts));
            }
        }
        i = i + 1;
    }
    (picks, max_ts)
}

/// What the file-system transport does with an event.
pub enum FsPlan {
    /// Write the data to this path.
    Write { path: String, data: String },
    /// Look for new message files.
    Scan,
    /// Nothing.
    Idle,
}

/// The file-system transport's decision for an event of client `client_id`.
pub fn plan(topic: &str, data: &str, ts: u64, client_id: &str) -> (r: FsPlan)
    ensures
        topic@ == "CRYPTO_ENCRYPTED"@ ==> (r matches FsPlan::Write { path, data: d } && path@ == "/net/"@ + decimal(
            ts as nat,
        ) + "_"@ + client_id@ + ".msg"@ && d@ == data@),
        topic@ == "SYS_TICK"@ ==> r is Scan,
        topic@ != "CRYPTO_ENCRYPTED"@ && topic@ != "SYS_TICK"@ ==> r is Idle,
{
    proof {
        reveal_strlit("CRYPTO_ENCRYPTED");
        reveal_strlit("SYS_TICK");
        assert("CRYPTO_ENCRYPTED"@.len() != "SYS_TICK"@.len());
    }
    if str_eq(topic, "CRYPTO_ENCRYPTED") {
        FsPlan::Write { path: outgoing_path(ts, client_id), data: String::from_str(data) }
    } else if str_eq(topic, "SYS_TICK") {
        FsPlan::Scan
    } else {
        FsPlan::Idle
    }
}

/// A tick of the file-system transport: of the files `names` in the shared
/// directory (`reads[i]` being what reading `names[i]` gave), the data of
/// every readable wanted file, in listing order, to be emitted as
/// `NET_RECEIVED`; and the new last time, the newest time among the wanted
/// files (readable or not), at least `last_ts`.  So a file the client wrote
/// itself is never emitted, and no file emitted now is wanted by a later
/// tick (`lemma_own_files_never_taken`, `lemma_taken_once`).
#[verifier::rlimit(40)]
pub fn tick(names: &Vec<String>, reads: &Vec<Option<String>>, client_id: &str, last_ts: u64) -> (r: (Vec<String>, u64))
    requires
        names@.len() == reads@.len(),
    ensures
        exists|picked: Seq<int>| {
            &&& #[trigger] picked.len() == r.0@.len()
            &&& forall|k: int| 0 <= k < picked.len() ==> 0 <= #[trigger] picked[k] < names@.len() && wanted(
                names@[picked[k]]@,
                client_id@,
                last_ts,
            ) && reads@[picked[k]] is Some && r.0@[k]@ == reads@[picked[k]]->0@
            &&& forall|k1: int, k2: int| 0 <= k1 < k2 < picked.len() ==> picked[k1] < picked[k2]
            &&& forall|i: int| 0 <= i < names@.len() && wanted(names@[i]@, client_id@, last_ts) && reads@[i] is Some
                ==> exists|k: int| 0 <= k < picked.len() && #[trigger] picked[k] == i
        },
        r.1 >= last_ts,
        forall|i: int| 0 <= i < names@.len() && wanted(#[trigger] names@[i]@, client_id@, last_ts) ==> (file_stamp(
            names@[i]@,
        ) matches Some(t) && t <= r.1),
        r.1 > last_ts ==> exists|i: int| 0 <= i < names@.len() && wanted(#[trigger] names@[i]@, client_id@, last_ts)
            && file_stamp(names@[i]@) == Some(r.1),
{
    let (picks, max_ts) = select_incoming(names, client_id, last_ts);
    let mut out: Vec<String> = Vec::new();
    let ghost mut pos: Seq<int> = Seq::empty();
    let mut k: usize = 0;
    while k < picks.len()
        invariant
            k <= picks@.len(),
            names@.len() == reads@.len(),
            pos.len() == out@.len(),
            forall|a: int| 0 <= a < picks@.len() ==> (#[trigger] picks@[a] as int) < names@.len(),
            forall|j: int| 0 <= j < pos.len() ==> 0 <= #[trigger] pos[j] < k && reads@[picks@[pos[j]] as int] is Some
                && out@[j]@ == reads@[picks@[pos[j]] as int]->0@,
            forall|j1: int, j2: int| 0 <= j1 < j2 < pos.len() ==> pos[j1] < pos[j2],
            forall|a: int| 0 <= a < k && reads@[#[trigger] picks@[a] as int] is Some ==> exists|j: int| 0 <= j < pos.len()
                && #[trigger] pos[j] == a,
        decreases picks@.len() - k,
    {
        let i = picks[k];
        let ghost before = pos;
        match &reads[i] {
            Some(d) => {
                out.push(d.clone());
                proof {
                    pos = pos.push(k as int);
                    assert forall|a: int| 0 <= a < k + 1 && reads@[#[trigger] picks@[a] as int] is Some implies exists|j: int|
                        0 <= j < pos.len() && #[trigger] pos[j] == a by {
                        if a == k {
                            assert(pos[pos.len() - 1] == a);
                        } else {
                            let j = choose|j: int| 0 <= j < before.len() && #[trigger] before[j] == a;
                            assert(pos[j] == before[j]);
                        }
                    }
                }
            },
            None => {},
        }
        k = k + 1;
    }
    proof {
        let picked = Seq::new(pos.len(), |j: int| picks@[pos[j]] as int);
        assert forall|k1: int, k2: int| 0 <= k1 < k2 < picked.len() implies picked[k1] < picked[k2] by {
            assert(pos[k1] < pos[k2]);
        }
        assert forall|i: int| 0 <= i < names@.len() && wanted(names@[i]@, client_id@, last_ts) && reads@[i] is Some
            implies exists|j: int| 0 <= j < picked.len() && #[trigger] picked[j] == i by {
            let a = choose|a: int| 0 <= a < picks@.len() && #[trigger] picks@[a] == i;
            assert(reads@[picks@[a] as int] is Some);
            let j = choose|j: int| 0 <= j < pos.len() && #[trigger] pos[j] == a;
            assert(picked[j] == i);
        }
        assert forall|kk: int| 0 <= kk < picked.len() implies 0 <= #[trigger] picked[kk] < names@.len() && wanted(
            names@[picked[kk]]@,
            client_id@,
            last_ts,
        ) && reads@[picked[kk]] is Some && out@[kk]@ == reads@[picked[kk]]->0@ by {
            assert(picks@[pos[kk]] as int == picked[kk]);
        }
        assert(picked.len() == out@.len());
    }
    (out, max_ts)
}

} // verus!
