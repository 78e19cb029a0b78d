use vstd::prelude::*;
use crate::plugins::guest::{bad_event_text, emit_views, guest_event_spec, read_event, response_json, response_text};
use crate::text::{chars_of, concat, str_eq, string_of};

verus! {

/// `s` with every occurrence of `pat` removed, scanning from the left
/// (`str::replace(pat, "")`).
pub open spec fn remove_all(s: Seq<char>, pat: Seq<char>) -> Seq<char>
    decreases s.len(),
{
    if pat.len() == 0 || s.len() < pat.len() {
        s
    } else if s.subrange(0, pat.len() as int) == pat {
        remove_all(s.subrange(pat.len() as int, s.len() as int), pat)
    } else {
        seq![s[0]] + remove_all(s.drop_first(), pat)
    }
}

/// `pat` occurs in `s` at `i`.
pub open spec fn occurs_at(s: Seq<char>, pat: Seq<char>, i: int) -> bool {
    0 <= i && i + pat.len() <= s.len() && s.subrange(i, i + pat.len()) == pat
}

fn matches_at(cs: &Vec<char>, ps: &Vec<char>, i: usize) -> (r: bool)
    requires
        i + ps@.len() <= cs@.len(),
    ensures
        r == (cs@.subrange(i as int, i + ps@.len()) == ps@),
{
    let n = cs.len();
    let mut k: usize = 0;
    while k < ps.len()
        invariant
            k <= ps@.len(),
            n == cs@.len(),
            i + ps@.len() <= cs@.len(),
            forall|j: int| 0 <= j < k ==> cs@[i + j] == ps@[j],
        decreases ps@.len() - k,
    {
        if cs[i + k] != ps[k] {
            assert(cs@.subrange(i as int, i + ps@.len())[k as int] != ps@[k as int]);
            return false;
        }
        k = k + 1;
    }
    assert(cs@.subrange(i as int, i + ps@.len()) =~= ps@);
    true
}

/// `s` with every occurrence of `pat` removed.
pub fn remove_all_exec(s: &str, pat: &str) -> (r: String)
    ensures
        r@ == remove_all(s@, pat@),
{
    let cs = chars_of(s);
    let ps = chars_of(pat);
    let mut out: Vec<char> = Vec::new();
    let mut i: usize = 0;
    assert(cs@.subrange(0, cs@.len() as int) =~= cs@);
    if ps.len() == 0 {
        return String::from_str(s);
    }
    while i < cs.len()
        invariant
            i <= cs@.len(),
            ps@ == pat@,
            cs@ == s@,
            ps@.len() > 0,
            out@ + remove_all(cs@.subrange(i as int, cs@.len() as int), ps@) == remove_all(cs@, ps@),
        decreases cs@.len() - i,
    {
        let ghost rest = cs@.subrange(i as int, cs@.len() as int);
        let matched = ps.len() <= cs.len() - i && matches_at(&cs, &ps, i);
        if matched {
            proof {
                assert(rest.subrange(0, ps@.len() as int) =~= cs@.subrange(i as int, i + ps@.len()));
                assert(rest.subrange(ps@.len() as int, rest.len() as int) =~= cs@.subrange(i + ps@.len(), cs@.len() as int));
            }
            i = i + ps.len();
        } else {
            proof {
                if rest.len() >= ps@.len() {
                    assert(rest.subrange(0, ps@.len() as int) =~= cs@.subrange(i as int, i + ps@.len()));
                }
                assert(rest.drop_first() =~= cs@.subrange(i + 1, cs@.len() as int));
                assert(rest[0] == cs@[i as int]);
            }
            let ghost before = out@;
            out.push(cs[i]);
            proof {
                assert(out@ + remove_all(cs@.subrange(i + 1, cs@.len() as int), ps@) =~= before + (seq![cs@[i as int]]
                    + remove_all(rest.drop_first(), ps@)));
            }
            i = i + 1;
        }
    }
    proof {
        assert(cs@.subrange(i as int, cs@.len() as int).len() == 0);
        assert(out@ + Seq::<char>::empty() =~= out@);
    }
    string_of(out.as_slice())
}

/// The ciphertext the demo plugin gives: `enc(<data>)`.
pub open spec fn enc_spec(data: Seq<char>) -> Seq<char> {
    "enc("@ + data + ")"@
}

/// The plaintext the demo plugin gives: every `enc(`, then every `)`, removed.
pub open spec fn dec_spec(data: Seq<char>) -> Seq<char> {
    remove_all(remove_all(data, "enc("@), ")"@)
}

/// Wraps `data` as `enc(<data>)`.
pub fn enc(data: &str) -> (r: String)
    ensures
        r@ == enc_spec(data@),
{
    let a = concat("enc(", data);
    concat(a.as_str(), ")")
}

/// Removes every `enc(`, then every `)`.
pub fn dec(data: &str) -> (r: String)
    ensures
        r@ == dec_spec(data@),
{
    let a = remove_all_exec(data, "enc(");
    remove_all_exec(a.as_str(), ")")
}

proof fn lemma_no_occurrence(s: Seq<char>, pat: Seq<char>)
    requires
        pat.len() > 0,
        forall|i: int| !#[trigger] occurs_at(s, pat, i),
    ensures
        remove_all(s, pat) == s,
    decreases s.len(),
{
    if s.len() >= pat.len() {
        assert(!occurs_at(s, pat, 0));
        let t = s.drop_first();
        assert forall|i: int| !#[trigger] occurs_at(t, pat, i) by {
            if occurs_at(t, pat, i) {
                assert(s.subrange(i + 1, i + 1 + pat.len()) =~= t.subrange(i, i + pat.len()));
                assert(occurs_at(s, pat, i + 1));
            }
        }
        lemma_no_occurrence(t, pat);
        assert(seq![s[0]] + t =~= s);
    }
}

proof fn lemma_remove_prefix(pat: Seq<char>, rest: Seq<char>)
    requires
        pat.len() > 0,
    ensures
        remove_all(pat + rest, pat) == remove_all(rest, pat),
{
    assert((pat + rest).subrange(0, pat.len() as int) =~= pat);
    assert((pat + rest).subrange(pat.len() as int, (pat + rest).len() as int) =~= rest);
}

/// Decrypting what was encrypted gives it back, for data with no `)` and no
/// `enc(` in it.
pub proof fn lemma_crypto_roundtrip(x: Seq<char>)
    requires
        forall|i: int| 0 <= i < x.len() ==> x[i] != ')',
        forall|i: int| !#[trigger] occurs_at(x, "enc("@, i),
    ensures
        dec_spec(enc_spec(x)) == x,
{
    reveal_strlit("enc(");
    reveal_strlit(")");
    let pat = "enc("@;
    let close = ")"@;
    assert("enc("@ + x + ")"@ =~= pat + (x + close));
    lemma_remove_prefix(pat, x + close);
    let y = x + close;
    assert forall|i: int| !#[trigger] occurs_at(y, pat, i) by {
        if occurs_at(y, pat, i) {
            if i + 4 <= x.len() {
                assert(x.subrange(i, i + 4) =~= y.subrange(i, i + 4));
                assert(occurs_at(x, pat, i));
            } else {
                assert(y.subrange(i, i + 4)[3] == y[i + 3]);
                assert(y[i + 3] == ')');
            }
        }
    }
    lemma_no_occurrence(y, pat);
    assert forall|i: int| 0 <= i < x.len() implies !occurs_at(x, close, i) by {
        if occurs_at(x, close, i) {
            assert(x.subrange(i, i + 1)[0] == x[i]);
        }
    }
    assert forall|i: int| !#[trigger] occurs_at(x, close, i) by {
        if occurs_at(x, close, i) {
            assert(x.subrange(i, i + 1)[0] == x[i]);
        }
    }
    lemma_remove_tail(x, close);
}

proof fn lemma_remove_tail(x: Seq<char>, c: Seq<char>)
    requires
        c.len() == 1,
        forall|i: int| 0 <= i < x.len() ==> x[i] != c[0],
    ensures
        remove_all(x + c, c) == x,
    decreases x.len(),
{
    if x.len() == 0 {
        assert(x + c =~= c);
        assert(c.subrange(0, 1) =~= c);
        assert(c.subrange(1, 1) =~= Seq::<char>::empty());
        assert(remove_all(c, c) == remove_all(c.subrange(1, 1), c));
        assert(remove_all(Seq::<char>::empty(), c) =~= Seq::<char>::empty());
        assert(x =~= Seq::<char>::empty());
    } else {
        let t = x.drop_first();
        assert((x + c).drop_first() =~= t + c);
        assert((x + c).subrange(0, 1)[0] == x[0]);
        assert((x + c).subrange(0, 1) != c);
        assert forall|i: int| 0 <= i < t.len() implies t[i] != c[0] by {
            assert(t[i] == x[i + 1]);
        }
        lemma_remove_tail(t, c);
        assert((x + c)[0] == x[0]);
        assert(remove_all(x + c, c) == seq![x[0]] + remove_all(t + c, c));
        assert(seq![x[0]] + t =~= x);
    }
}

/// What the demo crypto plugin emits for an event.
pub open spec fn crypto_emits(topic: Seq<char>, data: Seq<char>) -> Seq<(Seq<char>, Seq<char>)> {
    if topic == "UI_SEND_MSG"@ {
        seq![("CRYPTO_ENCRYPTED"@, enc_spec(data))]
    } else if topic == "NET_RECEIVED"@ {
        seq![("CRYPTO_DECRYPTED"@, dec_spec(data))]
    } else {
        seq![]
    }
}

/// The crypto plugin's round trip: what it emits for sending `d` (data with
/// no `)` and no `enc(`), handed back to it as received data, is decrypted
/// to `d`.
pub proof fn lemma_crypto_plugin_roundtrip(d: Seq<char>)
    requires
        forall|i: int| 0 <= i < d.len() ==> d[i] != ')',
        forall|i: int| !#[trigger] occurs_at(d, "enc("@, i),
    ensures
        crypto_emits("UI_SEND_MSG"@, d) == seq![("CRYPTO_ENCRYPTED"@, enc_spec(d))],
        crypto_emits("NET_RECEIVED"@, enc_spec(d)) == seq![("CRYPTO_DECRYPTED"@, d)],
{
    reveal_strlit("UI_SEND_MSG");
    reveal_strlit("NET_RECEIVED");
    assert("UI_SEND_MSG"@ != "NET_RECEIVED"@) by {
        assert("UI_SEND_MSG"@[0] != "NET_RECEIVED"@[0]);
    }
    lemma_crypto_roundtrip(d);
}

/// The demo crypto plugin's handler: `UI_SEND_MSG` becomes
/// `CRYPTO_ENCRYPTED` with `enc(<data>)`, `NET_RECEIVED` becomes
/// `CRYPTO_DECRYPTED` with the markers removed; anything else emits nothing.
pub fn handle_event(input: &str) -> (r: Result<String, String>)
    ensures
        guest_event_spec(input@, true) is None ==> (r matches Err(m) && m@ == bad_event_text()),
        guest_event_spec(input@, true) matches Some((topic, data, ts)) ==> (r matches Ok(out) && out@ == response_text(
            None,
            crypto_emits(topic, data),
            true,
        )),
{
    let event = match read_event(input, true) {
        Ok(e) => e,
        Err(m) => {
            return Err(m);
        },
    };
    let mut emit: Vec<(String, String)> = Vec::new();
    if str_eq(event.topic.as_str(), "UI_SEND_MSG") {
        emit.push((String::from_str("CRYPTO_ENCRYPTED"), enc(event.data.as_str())));
    } else if str_eq(event.topic.as_str(), "NET_RECEIVED") {
        emit.push((String::from_str("CRYPTO_DECRYPTED"), dec(event.data.as_str())));
    }
    assert(emit_views(emit@) =~= crypto_emits(event.topic@, event.data@));
    Ok(response_json(None, &emit, true))
}

} // verus!
