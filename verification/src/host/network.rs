use vstd::prelude::*;
use crate::host::event::{Event, NET_RECEIVED};
use crate::text::{
    clone_bytes, chars_of, lines_spec, split_lines, string_of, sub_chars, trim_chars, trim_spec, utf8_bytes, utf8_decode,
};

verus! {

/// Index of the first `"\n\n"` in `s`; `s.len()` when there is none.
pub open spec fn block_end(s: Seq<char>) -> nat
    decreases s.len(),
{
    if s.len() < 2 {
        s.len()
    } else if s[0] == '\n' && s[1] == '\n' {
        0
    } else {
        1 + block_end(s.drop_first())
    }
}

/// `s` has a `"\n\n"` at `j`.
pub open spec fn blank_at(s: Seq<char>, j: int) -> bool {
    0 <= j && j + 1 < s.len() && s[j] == '\n' && s[j + 1] == '\n'
}

proof fn lemma_block_end_at(s: Seq<char>, q: int)
    requires
        0 <= q <= s.len(),
        forall|j: int| 0 <= j < q ==> !blank_at(s, j),
        q + 1 < s.len() ==> blank_at(s, q),
        q + 1 >= s.len() ==> q == s.len(),
    ensures
        block_end(s) == q,
    decreases q,
{
    if q > 0 && s.len() >= 2 {
        assert(!blank_at(s, 0));
        let t = s.drop_first();
        assert forall|j: int| 0 <= j < q - 1 implies !blank_at(t, j) by {
            assert(!blank_at(s, j + 1));
        }
        if q + 1 < s.len() {
            assert(blank_at(s, q));
            assert(blank_at(t, q - 1));
        }
        lemma_block_end_at(t, q - 1);
    }
}

proof fn lemma_block_end(s: Seq<char>)
    ensures
        block_end(s) <= s.len(),
        forall|j: int| 0 <= j < block_end(s) ==> !blank_at(s, j),
        block_end(s) + 2 <= s.len() ==> blank_at(s, block_end(s) as int),
        block_end(s) + 2 > s.len() ==> block_end(s) == s.len(),
    decreases s.len(),
{
    if s.len() >= 2 && !(s[0] == '\n' && s[1] == '\n') {
        let t = s.drop_first();
        lemma_block_end(t);
        assert forall|j: int| 0 <= j < block_end(s) implies !blank_at(s, j) by {
            if j > 0 {
                assert(!blank_at(t, j - 1));
            }
        }
        if block_end(s) + 2 <= s.len() {
            assert(blank_at(t, block_end(t) as int));
        }
    }
}

/// The complete event blocks of a stream's text, in order: the pieces that
/// end with a blank line.
pub open spec fn sse_blocks(s: Seq<char>) -> Seq<Seq<char>>
    decreases s.len(),
{
    let p = block_end(s);
    if p + 2 <= s.len() {
        seq![s.subrange(0, p as int)] + sse_blocks(s.subrange(p as int + 2, s.len() as int))
    } else {
        seq![]
    }
}

/// What is left of a stream's text after its complete blocks: the start of
/// a block still to come.
pub open spec fn sse_rest(s: Seq<char>) -> Seq<char>
    decreases s.len(),
{
    let p = block_end(s);
    if p + 2 <= s.len() {
        sse_rest(s.subrange(p as int + 2, s.len() as int))
    } else {
        s
    }
}

proof fn lemma_blocks_append(s: Seq<char>, t: Seq<char>)
    ensures
        sse_blocks(s + t) == sse_blocks(s) + sse_blocks(sse_rest(s) + t),
        sse_rest(s + t) == sse_rest(sse_rest(s) + t),
    decreases s.len(),
{
    let p = block_end(s);
    lemma_block_end(s);
    if p + 2 <= s.len() {
        let st = s + t;
        assert forall|j: int| 0 <= j < p implies !blank_at(st, j) by {
            assert(!blank_at(s, j));
            assert(st[j] == s[j]);
            assert(st[j + 1] == s[j + 1]);
        }
        assert(st[p as int] == s[p as int] && st[p as int + 1] == s[p as int + 1]);
        lemma_block_end_at(st, p as int);
        let s2 = s.subrange(p as int + 2, s.len() as int);
        assert(st.subrange(p as int + 2, st.len() as int) =~= s2 + t);
        assert(st.subrange(0, p as int) =~= s.subrange(0, p as int));
        lemma_blocks_append(s2, t);
        assert(sse_blocks(st) =~= sse_blocks(s) + sse_blocks(sse_rest(s) + t));
    } else {
        assert(sse_blocks(s) =~= Seq::<Seq<char>>::empty());
        assert(sse_blocks(s) + sse_blocks(s + t) =~= sse_blocks(s + t));
    }
}

proof fn lemma_block_payloads_append(a: Seq<Seq<char>>, b: Seq<Seq<char>>)
    ensures
        block_payloads(a + b) == block_payloads(a) + block_payloads(b),
    decreases a.len(),
{
    if a.len() == 0 {
        assert(a + b =~= b);
        assert(block_payloads(a) + block_payloads(b) =~= block_payloads(b));
    } else {
        assert((a + b).drop_first() =~= a.drop_first() + b);
        assert((a + b)[0] == a[0]);
        lemma_block_payloads_append(a.drop_first(), b);
        assert(block_payloads(a + b) =~= block_payloads(a) + block_payloads(b));
    }
}

/// Chunk boundaries do not matter: reading `s` and then `t` gives the data
/// that reading `s + t` at once gives, and leaves the same text pending.
pub proof fn lemma_feed_split(buf: Seq<char>, s: Seq<char>, t: Seq<char>)
    ensures
        block_payloads(sse_blocks(buf + s)) + block_payloads(sse_blocks(sse_rest(buf + s) + t))
            == block_payloads(sse_blocks(buf + s + t)),
        sse_rest(sse_rest(buf + s) + t) == sse_rest(buf + s + t),
{
    lemma_blocks_append(buf + s, t);
    lemma_block_payloads_append(sse_blocks(buf + s), sse_blocks(sse_rest(buf + s) + t));
}

/// The data of a `data: ` line, unless it is empty, white space or `{}`.
pub open spec fn data_payload(line: Seq<char>) -> Option<Seq<char>> {
    if line.len() >= 6 && line.subrange(0, 6) == "data: "@ {
        let d = line.subrange(6, line.len() as int);
        let t = trim_spec(d);
        if t.len() == 0 || t == "{}"@ {
            None
        } else {
            Some(d)
        }
    } else {
        None
    }
}

/// The data of the lines, in order.
pub open spec fn line_payloads(lines: Seq<Seq<char>>) -> Seq<Seq<char>>
    decreases lines.len(),
{
    if lines.len() == 0 {
        seq![]
    } else {
        (match data_payload(lines[0]) {
            Some(d) => seq![d],
            None => seq![],
        }) + line_payloads(lines.drop_first())
    }
}

/// The data of the blocks' lines, in order.
pub open spec fn block_payloads(blocks: Seq<Seq<char>>) -> Seq<Seq<char>>
    decreases blocks.len(),
{
    if blocks.len() == 0 {
        seq![]
    } else {
        line_payloads(lines_spec(blocks[0])) + block_payloads(blocks.drop_first())
    }
}

proof fn lemma_line_payloads_push(lines: Seq<Seq<char>>, l: Seq<char>)
    ensures
        line_payloads(lines.push(l)) == line_payloads(lines) + (match data_payload(l) {
            Some(d) => seq![d],
            None => seq![],
        }),
    decreases lines.len(),
{
    if lines.len() == 0 {
        assert(lines.push(l).drop_first() =~= Seq::<Seq<char>>::empty());
        assert(line_payloads(Seq::<Seq<char>>::empty()) == Seq::<Seq<char>>::empty());
        assert(line_payloads(lines.push(l)) =~= line_payloads(lines) + (match data_payload(l) {
            Some(d) => seq![d],
            None => seq![],
        }));
    } else {
        assert(lines.push(l).drop_first() =~= lines.drop_first().push(l));
        assert(lines.push(l)[0] == lines[0]);
        lemma_line_payloads_push(lines.drop_first(), l);
        let h = match data_payload(lines[0]) {
            Some(d) => seq![d],
            None => seq![],
        };
        let e = match data_payload(l) {
            Some(d) => seq![d],
            None => seq![],
        };
        assert(h + (line_payloads(lines.drop_first()) + e) =~= (h + line_payloads(lines.drop_first())) + e);
    }
}

fn data_of_line(line: &Vec<char>) -> (r: Option<Vec<char>>)
    ensures
        r matches Some(d) ==> data_payload(line@) == Some(d@),
        r is None ==> data_payload(line@) is None,
{
    proof {
        reveal_strlit("data: ");
        reveal_strlit("{}");
    }
    if line.len() < 6 || line[0] != 'd' || line[1] != 'a' || line[2] != 't' || line[3] != 'a' || line[4] != ':'
        || line[5] != ' ' {
        proof {
            if line@.len() >= 6 {
                assert(line@.subrange(0, 6)[0] == line@[0]);
                assert(line@.subrange(0, 6)[1] == line@[1]);
                assert(line@.subrange(0, 6)[2] == line@[2]);
                assert(line@.subrange(0, 6)[3] == line@[3]);
                assert(line@.subrange(0, 6)[4] == line@[4]);
                assert(line@.subrange(0, 6)[5] == line@[5]);
            }
        }
        return None;
    }
    assert(line@.subrange(0, 6) =~= "data: "@);
    let mut d: Vec<char> = Vec::new();
    let mut q: usize = 6;
    while q < line.len()
        invariant
            6 <= q <= line@.len(),
            d@ == line@.subrange(6, q as int),
        decreases line@.len() - q,
    {
        d.push(line[q]);
        q = q + 1;
        assert(d@ =~= line@.subrange(6, q as int));
    }
    let t = trim_chars(d.as_slice());
    if t.len() == 0 {
        return None;
    }
    if t.len() == 2 && t[0] == '{' && t[1] == '}' {
        assert(t@ =~= "{}"@);
        return None;
    }
    proof {
        if t@ == "{}"@ {
            assert(t@[0] == '{' && t@[1] == '}');
        }
    }
    Some(d)
}

/// The data lines of a stream still being read.
pub struct SseDecoder {
    buf: String,
}

impl View for SseDecoder {
    type V = Seq<char>;

    /// The text received after the last complete block.
    closed spec fn view(&self) -> Seq<char> {
        self.buf@
    }
}

impl SseDecoder {
    /// A decoder that has read nothing.
    pub fn new() -> (d: Self)
        ensures
            d@ == Seq::<char>::empty(),
    {
        SseDecoder { buf: String::new() }
    }

    /// Reads `text`: gives the data of the lines of every block it
    /// completes, in order, and keeps what follows the last one.
    pub fn feed_text(&mut self, text: &str) -> (out: Vec<String>)
        ensures
            final(self)@ == sse_rest(old(self)@ + text@),
            out@.len() == block_payloads(sse_blocks(old(self)@ + text@)).len(),
            forall|i: int| 0 <= i < out@.len() ==> #[trigger] out@[i]@ == block_payloads(
                sse_blocks(old(self)@ + text@),
            )[i],
    {
        let mut all = chars_of(self.buf.as_str());
        let extra = chars_of(text);
        let mut k: usize = 0;
        while k < extra.len()
            invariant
                k <= extra@.len(),
                extra@ == text@,
                all@ == old(self)@ + extra@.subrange(0, k as int),
            decreases extra@.len() - k,
        {
            all.push(extra[k]);
            k = k + 1;
            assert(all@ =~= old(self)@ + extra@.subrange(0, k as int));
        }
        assert(extra@.subrange(0, k as int) =~= text@);
        let cs = all;
        let ghost whole = cs@;
        let ghost mut got: Seq<Seq<char>> = seq![];
        let mut out: Vec<String> = Vec::new();
        let mut start: usize = 0;
        let mut p: usize = 0;
        assert(cs@.subrange(0, cs@.len() as int) =~= cs@);
        assert(got + block_payloads(sse_blocks(whole)) =~= block_payloads(sse_blocks(whole)));
        while p < cs.len() && p < cs.len() - 1
            invariant
                start <= p <= cs@.len(),
                cs@ == whole,
                forall|j: int| start <= j < p ==> !blank_at(cs@, j),
                p < cs@.len() ==> start <= p,
                out@.len() == got.len(),
                forall|i: int| 0 <= i < out@.len() ==> #[trigger] out@[i]@ == got[i],
                got + block_payloads(sse_blocks(cs@.subrange(start as int, cs@.len() as int))) == block_payloads(
                    sse_blocks(whole),
                ),
                sse_rest(cs@.subrange(start as int, cs@.len() as int)) == sse_rest(whole),
            decreases cs@.len() - p,
        {
            if cs[p] == '\n' && cs[p + 1] == '\n' {
                let ghost rest = cs@.subrange(start as int, cs@.len() as int);
                let block = sub_chars(&cs, start, p);
                proof {
                    assert forall|j: int| 0 <= j < p - start implies !blank_at(rest, j) by {
                        assert(!blank_at(cs@, start + j));
                        assert(rest[j] == cs@[start + j]);
                        if j + 1 < rest.len() {
                            assert(rest[j + 1] == cs@[start + j + 1]);
                        }
                    }
                    assert(rest[p - start] == cs@[p as int]);
                    assert(rest[p - start + 1] == cs@[p + 1]);
                    lemma_block_end_at(rest, p - start);
                    assert(rest.subrange(0, p - start) =~= block@);
                    assert(rest.subrange(p - start + 2, rest.len() as int) =~= cs@.subrange(p + 2, cs@.len() as int));
                    assert(sse_blocks(rest) == seq![block@] + sse_blocks(cs@.subrange(p + 2, cs@.len() as int)));
                    let tail = sse_blocks(cs@.subrange(p + 2, cs@.len() as int));
                    assert((seq![block@] + tail).drop_first() =~= tail);
                    assert((seq![block@] + tail)[0] == block@);
                }
                let lines = split_lines(&block);
                let mut li: usize = 0;
                let ghost got0 = got;
                proof {
                    assert(lines@.len() == lines_spec(block@).len());
                    assert(lines_spec(block@).take(0) =~= Seq::<Seq<char>>::empty());
                    assert(got0 + line_payloads(lines_spec(block@).take(0)) =~= got0);
                }
                while li < lines.len()
                    invariant
                        li <= lines@.len(),
                        lines@.len() == lines_spec(block@).len(),
                        forall|i: int| 0 <= i < lines@.len() ==> #[trigger] lines@[i]@ == lines_spec(block@)[i],
                        out@.len() == got.len(),
                        forall|i: int| 0 <= i < out@.len() ==> #[trigger] out@[i]@ == got[i],
                        got == got0 + line_payloads(lines_spec(block@).take(li as int)),
                    decreases lines@.len() - li,
                {
                    let item = data_of_line(&lines[li]);
                    proof {
                        let ls = lines_spec(block@);
                        assert(ls.take(li + 1) =~= ls.take(li as int).push(ls[li as int]));
                        lemma_line_payloads_push(ls.take(li as int), ls[li as int]);
                    }
                    match item {
                        Some(d) => {
                            let s = string_of(d.as_slice());
                            proof {
                                assert(got0 + line_payloads(lines_spec(block@).take(li + 1)) =~= got.push(d@));
                                got = got.push(d@);
                            }
                            out.push(s);
                        },
                        None => {
                            proof {
                                assert(got0 + line_payloads(lines_spec(block@).take(li + 1)) =~= got);
                            }
                        },
                    }
                    li = li + 1;
                }
                proof {
                    let tail = sse_blocks(cs@.subrange(p + 2, cs@.len() as int));
                    assert(lines_spec(block@).take(li as int) =~= lines_spec(block@));
                    assert(block_payloads(seq![block@] + tail) == line_payloads(lines_spec(block@)) + block_payloads(tail));
                    assert(got + block_payloads(tail) =~= got0 + (line_payloads(lines_spec(block@)) + block_payloads(tail)));
                    assert(sse_rest(rest) == sse_rest(cs@.subrange(p + 2, cs@.len() as int)));
                }
                start = p + 2;
                p = p + 2;
            } else {
                p = p + 1;
            }
        }
        let ghost rest = cs@.subrange(start as int, cs@.len() as int);
        proof {
            assert forall|j: int| 0 <= j < rest.len() implies !blank_at(rest, j) by {
                if j + 1 < rest.len() {
                    assert(!blank_at(cs@, start + j));
                    assert(rest[j] == cs@[start + j]);
                    assert(rest[j + 1] == cs@[start + j + 1]);
                }
            }
            lemma_block_end_at(rest, rest.len() as int);
            assert(sse_blocks(rest) == Seq::<Seq<char>>::empty());
            assert(got + Seq::<Seq<char>>::empty() =~= got);
        }
        self.buf = string_of(sub_chars(&cs, start, cs.len()).as_slice());
        out
    }

    /// Reads a chunk of the stream: a chunk that is not UTF-8 is dropped;
    /// otherwise as `feed_text`, each data given as its UTF-8 bytes.
    pub fn feed(&mut self, chunk: &[u8]) -> (out: Vec<Vec<u8>>)
        ensures
            !vstd::utf8::valid_utf8(chunk@) ==> final(self)@ == old(self)@ && out@.len() == 0,
            vstd::utf8::valid_utf8(chunk@) ==> {
                let all = old(self)@ + vstd::utf8::decode_utf8(chunk@);
                &&& final(self)@ == sse_rest(all)
                &&& out@.len() == block_payloads(sse_blocks(all)).len()
                &&& forall|i: int| 0 <= i < out@.len() ==> #[trigger] out@[i]@ == vstd::utf8::encode_utf8(
                    block_payloads(sse_blocks(all))[i],
                )
            },
    {
        match utf8_decode(chunk) {
            Err(_) => Vec::new(),
            Ok(text) => {
                let datas = self.feed_text(text.as_str());
                let mut out: Vec<Vec<u8>> = Vec::new();
                let mut i: usize = 0;
                while i < datas.len()
                    invariant
                        i <= datas@.len(),
                        out@.len() == i,
                        forall|j: int| 0 <= j < i ==> #[trigger] out@[j]@ == vstd::utf8::encode_utf8(datas@[j]@),
                    decreases datas@.len() - i,
                {
                    out.push(utf8_bytes(datas[i].as_str()));
                    i = i + 1;
                }
                out
            },
        }
    }
}

/// What the reader of an event stream saw last.
pub enum SseSignal {
    /// The HTTP client could not be built.
    ClientFailed,
    /// The request failed before any answer came.
    ConnectFailed,
    /// The answer came; its body is the stream.
    Connected,
    /// A chunk of the body.
    Chunk(Vec<u8>),
    /// Reading the body failed.
    ChunkFailed,
    /// The body ended.
    Ended,
    /// The bus refused an event.
    BusClosed,
}

/// What the reader of an event stream does next.
pub enum SseAction {
    /// Wait this many seconds, then connect again.
    RetryAfter(u64),
    /// Hand these events to the bus, in order, then read on.
    Deliver(Vec<Event>),
    /// Read the next chunk.
    Read,
    /// Stop reading for good.
    Stop,
}

/// The reader's next step: a client that cannot be built or a bus that is
/// closed stops it; a failed request is tried again after 5 s; a failed or
/// ended body after 3 s; each new answer starts with an empty buffer; a
/// chunk is fed to the decoder and each data it completes becomes a fresh
/// `NET_RECEIVED` event (version 1) carrying the data's UTF-8.
pub fn sse_next(decoder: &mut SseDecoder, signal: SseSignal) -> (a: SseAction)
    ensures
        (signal is ClientFailed || signal is BusClosed) ==> a is Stop && final(decoder)@ == old(decoder)@,
        signal is ConnectFailed ==> a == SseAction::RetryAfter(5) && final(decoder)@ == old(decoder)@,
        (signal is ChunkFailed || signal is Ended) ==> a == SseAction::RetryAfter(3) && final(decoder)@ == old(
            decoder,
        )@,
        signal is Connected ==> a is Read && final(decoder)@ == Seq::<char>::empty(),
        signal matches SseSignal::Chunk(chunk) ==> (a matches SseAction::Deliver(out) && {
            &&& !vstd::utf8::valid_utf8(chunk@) ==> final(decoder)@ == old(decoder)@ && out@.len() == 0
            &&& vstd::utf8::valid_utf8(chunk@) ==> {
                let all = old(decoder)@ + vstd::utf8::decode_utf8(chunk@);
                &&& final(decoder)@ == sse_rest(all)
                &&& out@.len() == block_payloads(sse_blocks(all)).len()
                &&& forall|i: int| 0 <= i < out@.len() ==> #[trigger] out@[i].payload@ == vstd::utf8::encode_utf8(
                    block_payloads(sse_blocks(all))[i],
                )
            }
            &&& forall|i: int| #![trigger out@[i]] 0 <= i < out@.len() ==> out@[i].meta.topic@ == NET_RECEIVED@
                && out@[i].meta.version == 1
        }),
{
    match signal {
        SseSignal::ClientFailed => SseAction::Stop,
        SseSignal::BusClosed => SseAction::Stop,
        SseSignal::ConnectFailed => SseAction::RetryAfter(5),
        SseSignal::ChunkFailed => SseAction::RetryAfter(3),
        SseSignal::Ended => SseAction::RetryAfter(3),
        SseSignal::Connected => {
            *decoder = SseDecoder::new();
            SseAction::Read
        },
        SseSignal::Chunk(bytes) => {
            let datas = decoder.feed(bytes.as_slice());
            let mut events: Vec<Event> = Vec::new();
            let mut i: usize = 0;
            while i < datas.len()
                invariant
                    i <= datas@.len(),
                    events@.len() == i,
                    forall|j: int| #![trigger events@[j]] 0 <= j < i ==> events@[j].payload@ == datas@[j]@
                        && events@[j].meta.topic@ == NET_RECEIVED@ && events@[j].meta.version == 1,
                decreases datas@.len() - i,
            {
                events.push(Event::new(NET_RECEIVED, clone_bytes(datas[i].as_slice())));
                i = i + 1;
            }
            SseAction::Deliver(events)
        },
    }
}

} // verus!
