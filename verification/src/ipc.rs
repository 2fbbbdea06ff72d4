//! Talking to the perception-voice server: one request and one response over a local socket, each
//! a JSON text behind its length in four bytes, the most significant first.

use vstd::prelude::*;

use crate::text::{
    ended, law_lines_of_two, law_lines_read_back, law_one_line, lines_of, same_text, split_lines,
    views,
};

verus! {

/// Where the server listens.
pub const SOCKET_PATH: &'static str = "/workspace/perception-voice/perception.sock";

/// The name under which the server keeps the read marker.
pub const CLIENT_UID: &'static str = "whisper-notes";

/// How long, in seconds, a read from or a write to the server may take.
pub const IPC_TIMEOUT_SECS: u64 = 5;

// ---------------------------------------------------------------------------
// Messages
// ---------------------------------------------------------------------------

/// What is asked of the server.
pub struct IpcRequest {
    pub command: String,
    pub uid: String,
}

/// What the server answers.
pub struct IpcResponse {
    pub status: String,
    pub text: String,
}

/// One recognised utterance.
pub struct Transcription {
    pub text: String,
}

/// A request, with texts as sequences of characters.
pub struct RequestView {
    pub command: Seq<char>,
    pub uid: Seq<char>,
}

/// A response, with texts as sequences of characters.
pub struct ResponseView {
    pub status: Seq<char>,
    pub text: Seq<char>,
}

impl View for IpcRequest {
    type V = RequestView;

    open spec fn view(&self) -> RequestView {
        RequestView { command: self.command@, uid: self.uid@ }
    }
}

impl View for IpcResponse {
    type V = ResponseView;

    open spec fn view(&self) -> ResponseView {
        ResponseView { status: self.status@, text: self.text@ }
    }
}

impl View for Transcription {
    type V = Seq<char>;

    open spec fn view(&self) -> Seq<char> {
        self.text@
    }
}

/// The request of a command for a client.
pub fn request(command: &str, uid: &str) -> (out: IpcRequest)
    ensures
        out@ == (RequestView { command: command@, uid: uid@ }),
{
    IpcRequest { command: command.to_owned(), uid: uid.to_owned() }
}

/// The request that sets the read marker to now, so that older utterances are not handed out.
pub fn set_request() -> (out: IpcRequest)
    ensures
        out@ == (RequestView { command: "set"@, uid: CLIENT_UID@ }),
{
    request("set", CLIENT_UID)
}

/// The request for the utterances since the read marker.
pub fn get_request() -> (out: IpcRequest)
    ensures
        out@ == (RequestView { command: "get"@, uid: CLIENT_UID@ }),
{
    request("get", CLIENT_UID)
}

// ---------------------------------------------------------------------------
// Lengths
// ---------------------------------------------------------------------------

/// The four bytes in front of a message of `len` bytes.
pub open spec fn prefix_of(len: nat) -> Seq<u8> {
    seq![
        (len / 0x100_0000 % 0x100) as u8,
        (len / 0x1_0000 % 0x100) as u8,
        (len / 0x100 % 0x100) as u8,
        (len % 0x100) as u8,
    ]
}

/// The length that four bytes announce.
pub open spec fn announced(prefix: Seq<u8>) -> nat {
    prefix[0] as nat * 0x100_0000 + prefix[1] as nat * 0x1_0000 + prefix[2] as nat * 0x100
        + prefix[3] as nat
}

/// The four bytes in front of a message of `len` bytes. Of a longer length than four bytes can
/// hold, the last four bytes.
pub fn length_prefix(len: usize) -> (out: Vec<u8>)
    ensures
        out@ == prefix_of(len as nat),
{
    let n: u64 = len as u64;
    let out: Vec<u8> = vec![
        (n / 0x100_0000 % 0x100) as u8,
        (n / 0x1_0000 % 0x100) as u8,
        (n / 0x100 % 0x100) as u8,
        (n % 0x100) as u8,
    ];
    assert(out@ =~= prefix_of(len as nat));
    out
}

/// The length that four bytes announce.
pub fn announced_length(prefix: &Vec<u8>) -> (out: usize)
    requires
        prefix.len() == 4,
    ensures
        out == announced(prefix@),
{
    let n: u32 = prefix[0] as u32 * 0x100_0000 + prefix[1] as u32 * 0x1_0000 + prefix[2] as u32
        * 0x100 + prefix[3] as u32;
    n as usize
}

/// The last byte of a number, and the bytes before it.
proof fn lemma_last_byte(rest: nat, byte: nat)
    requires
        byte < 0x100,
    ensures
        (rest * 0x100 + byte) / 0x100 == rest,
        (rest * 0x100 + byte) % 0x100 == byte,
{
}

/// The bytes of a length, one by one.
proof fn lemma_prefix_bytes(len: nat)
    ensures
        ({
            let a = len / 0x100;
            let b = a / 0x100;
            let c = b / 0x100;
            prefix_of(len) == seq![
                (c % 0x100) as u8,
                (b % 0x100) as u8,
                (a % 0x100) as u8,
                (len % 0x100) as u8,
            ]
        }),
{
    let a = len / 0x100;
    let b = a / 0x100;
    let c = b / 0x100;
    assert(len / 0x1_0000 == b);
    assert(len / 0x100_0000 == c);
}

/// A length that fits in four bytes is read back; of a longer one, what is left over 2^32.
pub proof fn law_length_read_back(len: nat)
    ensures
        prefix_of(len).len() == 4,
        announced(prefix_of(len)) == len % 0x1_0000_0000,
        len < 0x1_0000_0000 ==> announced(prefix_of(len)) == len,
{
    let a = len / 0x100;
    let b = a / 0x100;
    let c = b / 0x100;
    let d = c / 0x100;
    lemma_prefix_bytes(len);
    let p = prefix_of(len);
    let n = announced(p);
    assert(p[0] == c % 0x100);
    assert(p[1] == b % 0x100);
    assert(p[2] == a % 0x100);
    assert(p[3] == len % 0x100);
    assert(len == a * 0x100 + p[3]);
    assert(a == b * 0x100 + p[2]);
    assert(b == c * 0x100 + p[1]);
    assert(c == d * 0x100 + p[0]);
    assert(len == d * 0x1_0000_0000 + n);
    assert(n < 0x1_0000_0000);
    assert(len % 0x1_0000_0000 == n);
}

/// Four bytes are the prefix of the length that they announce, and of no other below 2^32.
pub proof fn law_prefix_of_announced(prefix: Seq<u8>, len: nat)
    requires
        prefix.len() == 4,
    ensures
        announced(prefix) < 0x1_0000_0000,
        prefix_of(announced(prefix)) == prefix,
        len < 0x1_0000_0000 && prefix_of(len) == prefix ==> len == announced(prefix),
{
    let n = announced(prefix);
    let c = prefix[0] as nat;
    let b = c * 0x100 + prefix[1] as nat;
    let a = b * 0x100 + prefix[2] as nat;
    assert(n == a * 0x100 + prefix[3] as nat);
    lemma_last_byte(a, prefix[3] as nat);
    lemma_last_byte(b, prefix[2] as nat);
    lemma_last_byte(c, prefix[1] as nat);
    lemma_prefix_bytes(n);
    assert(c % 0x100 == prefix[0]);
    assert(prefix_of(n) =~= prefix);
    law_length_read_back(len);
}

// ---------------------------------------------------------------------------
// Responses
// ---------------------------------------------------------------------------

/// How an exchange with the server ended: its response, or what went wrong.
pub open spec fn outcome_view(outcome: Result<IpcResponse, String>) -> Result<
    ResponseView,
    Seq<char>,
> {
    match outcome {
        Ok(response) => Ok(response@),
        Err(message) => Err(message@),
    }
}

/// Whether the server carried a request out.
pub open spec fn succeeded(outcome: Result<ResponseView, Seq<char>>) -> bool {
    outcome matches Ok(response) && response.status == "ok"@
}

/// Whether the read marker was set, by how the request for it ended.
pub fn read_marker_set(outcome: &Result<IpcResponse, String>) -> (set: bool)
    ensures
        set == succeeded(outcome_view(*outcome)),
{
    match outcome {
        Ok(response) => same_text(response.status.as_str(), "ok"),
        Err(_) => false,
    }
}

/// The lines that utterances are read from: those of the response's text, if the server carried
/// the request out.
pub open spec fn transcription_lines(outcome: Result<ResponseView, Seq<char>>) -> Seq<Seq<char>> {
    if succeeded(outcome) {
        lines_of(outcome->Ok_0.text)
    } else {
        Seq::empty()
    }
}

/// The lines that utterances are read from, by how the request for them ended.
pub fn lines_to_parse(outcome: &Result<IpcResponse, String>) -> (out: Vec<String>)
    ensures
        views(out@) == transcription_lines(outcome_view(*outcome)),
{
    match outcome {
        Ok(response) => {
            if !same_text(response.status.as_str(), "ok") || response.text.as_str().is_empty() {
                let out: Vec<String> = Vec::new();
                assert(views(out@) =~= Seq::<Seq<char>>::empty());
                return out;
            }
            split_lines(response.text.as_str())
        },
        Err(_) => {
            let out: Vec<String> = Vec::new();
            assert(views(out@) =~= Seq::<Seq<char>>::empty());
            out
        },
    }
}

/// The texts of utterances.
pub open spec fn transcription_views(items: Seq<Transcription>) -> Seq<Seq<char>> {
    Seq::new(items.len(), |i: int| items[i].text@)
}

/// What is there, in order, without the gaps.
pub open spec fn present(parsed: Seq<Option<Transcription>>) -> Seq<Seq<char>>
    decreases parsed.len(),
{
    if parsed.len() == 0 {
        Seq::empty()
    } else {
        match parsed.last() {
            Some(item) => present(parsed.drop_last()).push(item.text@),
            None => present(parsed.drop_last()),
        }
    }
}

/// The utterances that could be read, in order. `None` stands for a line that could not.
pub fn keep_parsed(parsed: Vec<Option<Transcription>>) -> (out: Vec<Transcription>)
    ensures
        transcription_views(out@) == present(parsed@),
{
    let mut out: Vec<Transcription> = Vec::new();
    let ghost all = parsed@;
    assert(transcription_views(out@) =~= present(all.take(0)));
    for item in it: parsed
        invariant
            it.seq() == all,
            transcription_views(out@) == present(all.take(it.index())),
    {
        proof {
            assert(all.take(it.index() + 1).drop_last() =~= all.take(it.index()));
        }
        let ghost before = transcription_views(out@);
        match item {
            Some(item) => {
                out.push(item);
                assert(transcription_views(out@) =~= before.push(item.text@));
            },
            None => {},
        }
    }
    assert(all.take(all.len() as int) =~= all);
    out
}

// ---------------------------------------------------------------------------
// Laws
// ---------------------------------------------------------------------------

/// The four bytes in front of a message are its length with the most significant byte first, and
/// they are read so.
pub proof fn law_most_significant_byte_first(len: nat, prefix: Seq<u8>)
    requires
        len < 0x1_0000_0000,
        prefix.len() == 4,
    ensures
        prefix_of(len).len() == 4,
        prefix_of(len)[0] * 0x100_0000 + prefix_of(len)[1] * 0x1_0000 + prefix_of(len)[2] * 0x100
            + prefix_of(len)[3] == len,
        announced(prefix) == prefix[0] * 0x100_0000 + prefix[1] * 0x1_0000 + prefix[2] * 0x100
            + prefix[3],
{
    law_length_read_back(len);
}

/// The server carried a request out if and only if it answered with the status `ok`.
pub proof fn law_only_ok_succeeds(status: Seq<char>, text: Seq<char>, message: Seq<char>)
    ensures
        succeeded(Ok(ResponseView { status, text })) <==> status == seq!['o', 'k'],
        !succeeded(Err(message)),
{
    reveal_strlit("ok");
    assert("ok"@ =~= seq!['o', 'k']);
}

/// Where the server did not carry the request out, there is nothing to read.
pub proof fn law_nothing_is_read_but_from_ok(
    status: Seq<char>,
    text: Seq<char>,
    message: Seq<char>,
)
    requires
        status != seq!['o', 'k'],
    ensures
        transcription_lines(Ok(ResponseView { status, text })) == Seq::<Seq<char>>::empty(),
        transcription_lines(Err(message)) == Seq::<Seq<char>>::empty(),
{
    law_only_ok_succeeds(status, text, message);
}

/// A response with the status `ok`.
pub open spec fn ok_response(text: Seq<char>) -> Result<ResponseView, Seq<char>> {
    Ok(ResponseView { status: seq!['o', 'k'], text })
}

/// Each line of a response is read, however many there are: those that end in a line feed, with a
/// carriage return before it or without, and a last one that may have no end.
pub proof fn law_each_line_is_read(front: Seq<char>, line: Seq<char>)
    requires
        front.len() == 0 || front.last() == '\n',
        !line.contains('\n'),
    ensures
        ({
            let before = transcription_lines(ok_response(front));
            &&& transcription_lines(ok_response(Seq::empty())) == Seq::<Seq<char>>::empty()
            &&& line.len() > 0 ==> transcription_lines(ok_response(front + line)) == before.push(
                line,
            )
            &&& line.len() == 0 || line.last() != '\r' ==> transcription_lines(
                ok_response(front + line + seq!['\n']),
            ) == before.push(line)
            &&& transcription_lines(ok_response(front + line + seq!['\r', '\n'])) == before.push(
                line,
            )
        }),
{
    reveal_strlit("ok");
    assert("ok"@ =~= seq!['o', 'k']);
    law_one_line(line);
    law_lines_of_two(front, line);
    law_lines_of_two(front, line + seq!['\n']);
    law_lines_of_two(front, line + seq!['\r', '\n']);
    assert(front + line + seq!['\n'] =~= front + (line + seq!['\n']));
    assert(front + line + seq!['\r', '\n'] =~= front + (line + seq!['\r', '\n']));
    let before = lines_of(front);
    assert(before + seq![line] =~= before.push(line));
}

/// Lines that the server wrote one behind the other are all read, in their order.
pub proof fn law_response_is_read_line_by_line(lines: Seq<Seq<char>>)
    requires
        forall|i: int| 0 <= i < lines.len() ==> !(#[trigger] lines[i]).contains('\n'),
        forall|i: int|
            0 <= i < lines.len() && (#[trigger] lines[i]).len() > 0 ==> lines[i].last() != '\r',
    ensures
        transcription_lines(ok_response(ended(lines))) == lines,
{
    reveal_strlit("ok");
    assert("ok"@ =~= seq!['o', 'k']);
    law_lines_read_back(lines);
}

/// Utterances that could be read are kept in their order, each once, and lines that could not be
/// read leave nothing.
pub proof fn law_what_could_be_read_is_kept(
    a: Seq<Option<Transcription>>,
    b: Seq<Option<Transcription>>,
    item: Transcription,
)
    ensures
        present(Seq::empty()) == Seq::<Seq<char>>::empty(),
        present(seq![Some(item)]) == seq![item.text@],
        present(seq![None]) == Seq::<Seq<char>>::empty(),
        present(a + b) == present(a) + present(b),
    decreases b.len(),
{
    let none = Seq::<Option<Transcription>>::empty();
    assert(seq![Some(item)].drop_last() =~= none);
    assert(seq![None::<Transcription>].drop_last() =~= none);
    assert(present(none).push(item.text@) =~= seq![item.text@]);
    if b.len() == 0 {
        assert(a + b =~= a);
        assert(present(a) + present(b) =~= present(a));
    } else {
        law_what_could_be_read_is_kept(a, b.drop_last(), item);
        assert((a + b).drop_last() =~= a + b.drop_last());
        assert((a + b).last() == b.last());
        match b.last() {
            Some(last) => {
                assert(present(a + b) =~= present(a) + present(b));
            },
            None => {},
        }
    }
}

/// A message says what its parts say, and a list of utterances what each of them says, in order.
pub proof fn law_messages_say_what_their_parts_say(
    request: IpcRequest,
    response: IpcResponse,
    message: String,
    items: Seq<Transcription>,
)
    ensures
        request@.command == request.command@,
        request@.uid == request.uid@,
        response@.status == response.status@,
        response@.text == response.text@,
        outcome_view(Ok(response)) == Ok::<ResponseView, Seq<char>>(response@),
        outcome_view(Err(message)) == Err::<ResponseView, Seq<char>>(message@),
        transcription_views(items).len() == items.len(),
        forall|i: int|
            0 <= i < items.len() ==> #[trigger] transcription_views(items)[i] == items[i].text@,
{
}

} // verus!
