//! The per-request log record: a snapshot of inbound metadata plus mutable
//! fields, with exactly-once emission. A record is `Pending` until it is
//! written or discarded; a record still pending when its owning scope ends
//! writes its line to the process diagnostic stream.

use vstd::prelude::*;
use vstd::utf8::encode_utf8;
use crate::display::LogDisplay;
use crate::escaped::Escaped;
use crate::escaped::token_of;
use crate::remote::RemoteAddr;
use crate::sink::LogSink;
use crate::sink::WriteError;
use crate::remote::lemma_rendered_control_free;
use crate::text::control_free;
use crate::text::copy_bytes;
use crate::text::dec_digits;
use crate::text::is_control_char;
use crate::text::lemma_control_free_concat;
use crate::text::lemma_dec_digits_control_free;
use crate::text::push_chars;
use crate::text::push_dec_u16;
use crate::text::push_str_chars;

verus! {

/// The abstract value of a [`LogRequest`]: every field the rendered line
/// depends on, plus the emitted-flag.
pub struct RecordView {
    pub logged: bool,
    pub user: Option<Seq<char>>,
    pub remote: Option<RemoteAddr>,
    pub fwd: Option<Seq<u8>>,
    pub host: Option<Seq<u8>>,
    pub method: Seq<char>,
    pub uri: Seq<char>,
    pub version: Seq<char>,
    pub user_agent: Option<Seq<u8>>,
    pub referer: Option<Seq<u8>>,
    pub action: Option<Seq<char>>,
    pub status: Option<u16>,
}

/// The token of an optional header value: absent headers render as the
/// empty-quote token.
pub open spec fn opt_token(v: Option<Seq<u8>>) -> Seq<char> {
    match v {
        Some(b) => token_of(b),
        None => token_of(Seq::<u8>::empty()),
    }
}

/// The bytes `::ffff:`, the textual prefix of an IPv4-mapped address.
pub open spec fn mapped_prefix() -> Seq<u8> {
    seq![0x3au8, 0x3au8, 0x66u8, 0x66u8, 0x66u8, 0x66u8, 0x3au8]
}

/// A forwarded-for value with a leading `::ffff:` stripped.
pub open spec fn strip_mapped_prefix(b: Seq<u8>) -> Seq<u8> {
    if b.len() >= 7 && b.subrange(0, 7) == mapped_prefix() {
        b.skip(7)
    } else {
        b
    }
}

/// The opening of the line: the fixed prefix, the action segment (with its
/// trailing colon, omitted entirely when unset), the status (`???` when
/// unset), and the user token followed by one space (absent when unset).
pub open spec fn render_head(v: RecordView) -> Seq<char> {
    "request: ["@ + (match v.action {
        Some(a) => a + seq![':'],
        None => seq![],
    }) + (match v.status {
        Some(s) => dec_digits(s as nat),
        None => "???"@,
    }) + "] "@ + (match v.user {
        Some(u) => token_of(encode_utf8(u)) + seq![' '],
        None => seq![],
    })
}

/// The endpoint part of the line: the remote address
/// (`<unknown-remote>` when unset), then the forwarded-for token behind a
/// slash, with a leading `::ffff:` stripped before escaping.
pub open spec fn render_remote(v: RecordView) -> Seq<char> {
    (match v.remote {
        Some(r) => r.rendered(),
        None => "<unknown-remote>"@,
    }) + (match v.fwd {
        Some(f) => seq!['/'] + token_of(strip_mapped_prefix(f)),
        None => seq![],
    })
}

/// The request part of the line: the host token and the method, URI and
/// protocol version, each behind one space.
pub open spec fn render_request(v: RecordView) -> Seq<char> {
    seq![' '] + opt_token(v.host) + seq![' '] + v.method + seq![' '] + v.uri + seq![' ']
        + v.version
}

/// The closing of the line: the user-agent and referer tokens, the elapsed
/// time, each behind one space, and the one trailing newline.
pub open spec fn render_close(v: RecordView, elapsed: Seq<char>) -> Seq<char> {
    seq![' '] + opt_token(v.user_agent) + seq![' '] + opt_token(v.referer) + seq![' '] + elapsed
        + seq!['\n']
}

/// The one log line a record renders as, given the elapsed-time text:
/// `request: [action:status] user remote/forwarded host method uri version
/// user-agent referer elapsed`, with a trailing newline. The action segment
/// is omitted when unset, an unset status renders as `???`, an absent
/// remote as `<unknown-remote>`, and user, forwarded-for and the three
/// header fields pass through the safe-token encoder.
pub open spec fn render_spec(v: RecordView, elapsed: Seq<char>) -> Seq<char> {
    render_head(v) + render_remote(v) + render_request(v) + render_close(v, elapsed)
}

/// The record texts that reach the line without passing the encoder: the
/// action label and the captured method, URI and protocol version.
pub open spec fn texts_control_free(v: RecordView) -> bool {
    &&& control_free(v.method)
    &&& control_free(v.uri)
    &&& control_free(v.version)
    &&& match v.action {
        Some(a) => control_free(a),
        None => true,
    }
}

/// One whole line: it ends with a newline and holds no other one.
pub open spec fn single_line(s: Seq<char>) -> bool {
    s.len() >= 1 && s.last() == '\n' && (forall|i: int| 0 <= i < s.len() - 1 ==> s[i] != '\n')
}

/// The shape of a line's closing: nonempty, newline last, everything before
/// it control-free.
pub open spec fn closes_line(s: Seq<char>) -> bool {
    s.len() >= 1 && s.last() == '\n' && control_free(s.take(s.len() - 1))
}

proof fn lemma_single_line_concat(p: Seq<char>, c: Seq<char>)
    requires
        control_free(p),
        closes_line(c),
    ensures
        single_line(p + c),
{
    assert((p + c).last() == '\n');
    assert forall|i: int| 0 <= i < (p + c).len() - 1 implies (p + c)[i] != '\n' by {
        assert(is_control_char('\n'));
        if i < p.len() {
            assert((p + c)[i] == p[i]);
        } else {
            assert((p + c)[i] == c[i - p.len()]);
            assert(c[i - p.len()] == c.take(c.len() - 1)[i - p.len()]);
        }
    }
}

/// Law: a forwarded-for value that begins with the textual mapped prefix
/// `::ffff:` loses exactly that prefix before it is escaped; any other
/// value is escaped whole.
pub proof fn lemma_fwd_strip(f: Seq<u8>)
    ensures
        f.len() >= 7 && f.subrange(0, 7) == mapped_prefix() ==> strip_mapped_prefix(f) == f.skip(
            7,
        ),
        f.len() < 7 || f.subrange(0, 7) != mapped_prefix() ==> strip_mapped_prefix(f) == f,
{
}

/// Law: a rendered line is never empty and ends with the one trailing
/// newline that emission appends.
pub proof fn lemma_line_ends_newline(v: RecordView, elapsed: Seq<char>)
    ensures
        render_spec(v, elapsed).len() >= 1,
        render_spec(v, elapsed).last() == '\n',
{
    let c = render_close(v, elapsed);
    assert(c.last() == '\n');
    assert(render_spec(v, elapsed).last() == '\n');
}

/// A container for information about one HTTP request which writes one log
/// line when it goes out of scope, unless it was written or discarded
/// first. The `A` type parameter is the type of the action field, rendered
/// through [`LogDisplay`] when logging.
pub struct LogRequest<A: LogDisplay> {
    start: std::time::Instant,
    logged: bool,
    user: Option<String>,
    remote: Option<RemoteAddr>,
    fwd: Option<Vec<u8>>,
    host: Option<Vec<u8>>,
    method: String,
    uri: String,
    version: String,
    user_agent: Option<Vec<u8>>,
    referer: Option<Vec<u8>>,
    action: Option<A>,
    status: Option<u16>,
}

impl<A: LogDisplay> View for LogRequest<A> {
    type V = RecordView;

    closed spec fn view(&self) -> RecordView {
        RecordView {
            logged: self.logged,
            user: match self.user {
                Some(u) => Some(u@),
                None => None,
            },
            remote: self.remote,
            fwd: match self.fwd {
                Some(f) => Some(f@),
                None => None,
            },
            host: match self.host {
                Some(h) => Some(h@),
                None => None,
            },
            method: self.method@,
            uri: self.uri@,
            version: self.version@,
            user_agent: match self.user_agent {
                Some(h) => Some(h@),
                None => None,
            },
            referer: match self.referer {
                Some(h) => Some(h@),
                None => None,
            },
            action: match self.action {
                Some(a) => Some(a.log_view()),
                None => None,
            },
            status: self.status,
        }
    }
}

impl<A: LogDisplay> LogRequest<A> {
    /// Creates a pending record from the given request: captures the start
    /// time, the forwarded-for, host, user-agent and referer headers, and
    /// the method, URI and protocol version.
    pub fn from_request<B>(req: &hyper::Request<B>) -> (r: LogRequest<A>)
        ensures
            !r@.logged,
            r@.user is None,
            r@.remote is None,
            r@.action is None,
            r@.status is None,
            texts_control_free(r@),
    {
        LogRequest {
            start: crate::ext::now(),
            logged: false,
            user: None,
            remote: None,
            fwd: crate::ext::header_bytes(req, "x-forwarded-for"),
            host: crate::ext::header_bytes(req, "host"),
            method: crate::ext::method_text(req),
            uri: crate::ext::uri_text(req),
            version: crate::ext::version_text(req),
            user_agent: crate::ext::header_bytes(req, "user-agent"),
            referer: crate::ext::header_bytes(req, "referer"),
            action: None,
            status: None,
        }
    }

    /// Sets the address of the remote endpoint.
    pub fn set_remote(&mut self, remote: RemoteAddr)
        ensures
            final(self)@ == (RecordView { remote: Some(remote), ..old(self)@ }),
    {
        self.remote = Some(remote);
    }

    /// Sets a user identifier for the request: any text, escaped at
    /// rendering time if necessary.
    pub fn set_user(&mut self, user: String)
        ensures
            final(self)@ == (RecordView { user: Some(user@), ..old(self)@ }),
    {
        self.user = Some(user);
    }

    /// Sets the action label: the part of the application that handled the
    /// request, rendered through [`LogDisplay`] in the log line.
    pub fn set_action(&mut self, action: A)
        ensures
            final(self)@ == (RecordView { action: Some(action.log_view()), ..old(self)@ }),
    {
        self.action = Some(action);
    }

    /// Takes the numeric status from the response to the request.
    pub fn set_response<B>(&mut self, response: &hyper::Response<B>)
        ensures
            final(self)@.status is Some,
            100 <= final(self)@.status->Some_0 <= 999,
            final(self)@ == (RecordView { status: final(self)@.status, ..old(self)@ }),
    {
        let s = crate::ext::status_of(response);
        self.status = Some(s);
    }

    /// Appends the opening of the line (see [`render_head`]).
    fn push_head(&self, out: &mut Vec<char>)
        ensures
            final(out)@ == old(out)@ + render_head(self@),
            (match self@.action {
                Some(a) => control_free(a),
                None => true,
            }) ==> control_free(render_head(self@)),
    {
        let ghost base = out@;
        push_str_chars(out, "request: [");
        match &self.action {
            Some(a) => {
                let t = a.log_display();
                push_str_chars(out, t.as_str());
                out.push(':');
            },
            None => {},
        }
        match self.status {
            Some(s) => push_dec_u16(out, s),
            None => push_str_chars(out, "???"),
        }
        push_str_chars(out, "] ");
        match &self.user {
            Some(u) => {
                let e = Escaped::from_text(u.as_str());
                let t = e.token_chars();
                push_chars(out, &t);
                out.push(' ');
            },
            None => {},
        }
        proof {
            assert(out@ =~= base + render_head(self@));
            if match self@.action {
                Some(a) => control_free(a),
                None => true,
            } {
                let l1 = "request: ["@;
                let ap = match self@.action {
                    Some(a) => a + seq![':'],
                    None => Seq::<char>::empty(),
                };
                let st = match self@.status {
                    Some(n) => dec_digits(n as nat),
                    None => "???"@,
                };
                let us = match self@.user {
                    Some(u) => token_of(encode_utf8(u)) + seq![' '],
                    None => Seq::<char>::empty(),
                };
                assert(control_free(l1)) by {
                    reveal_strlit("request: [");
                }
                assert(control_free("???"@)) by {
                    reveal_strlit("???");
                }
                assert(control_free("] "@)) by {
                    reveal_strlit("] ");
                }
                if self@.action is Some {
                    lemma_control_free_concat(self@.action->Some_0, seq![':']);
                }
                if self@.status is Some {
                    lemma_dec_digits_control_free(self@.status->Some_0 as nat);
                }
                if self@.user is Some {
                    lemma_control_free_concat(token_of(encode_utf8(self@.user->Some_0)), seq![' ']);
                }
                lemma_control_free_concat(l1, ap);
                lemma_control_free_concat(l1 + ap, st);
                lemma_control_free_concat(l1 + ap + st, "] "@);
                lemma_control_free_concat(l1 + ap + st + "] "@, us);
            }
        }
    }

    /// Appends the endpoint part of the line (see [`render_remote`]).
    fn push_remote(&self, out: &mut Vec<char>)
        ensures
            final(out)@ == old(out)@ + render_remote(self@),
            control_free(render_remote(self@)),
    {
        let ghost base = out@;
        match &self.remote {
            Some(r) => r.push_rendered(out),
            None => push_str_chars(out, "<unknown-remote>"),
        }
        match &self.fwd {
            Some(f) => {
                out.push('/');
                let stripped = strip_fwd_prefix(f);
                let e = Escaped::from_bytes(stripped);
                let t = e.token_chars();
                push_chars(out, &t);
            },
            None => {},
        }
        proof {
            assert(out@ =~= base + render_remote(self@));
            let rp = match self@.remote {
                Some(r) => r.rendered(),
                None => "<unknown-remote>"@,
            };
            let fp = match self@.fwd {
                Some(f2) => seq!['/'] + token_of(strip_mapped_prefix(f2)),
                None => Seq::<char>::empty(),
            };
            if self@.remote is Some {
                lemma_rendered_control_free(self@.remote->Some_0);
            } else {
                assert(control_free("<unknown-remote>"@)) by {
                    reveal_strlit("<unknown-remote>");
                }
            }
            if self@.fwd is Some {
                lemma_control_free_concat(
                    seq!['/'],
                    token_of(strip_mapped_prefix(self@.fwd->Some_0)),
                );
            }
            lemma_control_free_concat(rp, fp);
        }
    }

    /// Appends the request part of the line (see [`render_request`]).
    fn push_request(&self, out: &mut Vec<char>)
        ensures
            final(out)@ == old(out)@ + render_request(self@),
            control_free(self@.method) && control_free(self@.uri) && control_free(self@.version)
                ==> control_free(render_request(self@)),
    {
        let ghost base = out@;
        out.push(' ');
        push_opt_token(out, &self.host);
        out.push(' ');
        push_str_chars(out, self.method.as_str());
        out.push(' ');
        push_str_chars(out, self.uri.as_str());
        out.push(' ');
        push_str_chars(out, self.version.as_str());
        proof {
            assert(out@ =~= base + render_request(self@));
            if control_free(self@.method) && control_free(self@.uri) && control_free(
                self@.version,
            ) {
                let ht = opt_token(self@.host);
                lemma_control_free_concat(seq![' '], ht);
                lemma_control_free_concat(seq![' '] + ht, seq![' ']);
                lemma_control_free_concat(seq![' '] + ht + seq![' '], self@.method);
                lemma_control_free_concat(seq![' '] + ht + seq![' '] + self@.method, seq![' ']);
                lemma_control_free_concat(
                    seq![' '] + ht + seq![' '] + self@.method + seq![' '],
                    self@.uri,
                );
                lemma_control_free_concat(
                    seq![' '] + ht + seq![' '] + self@.method + seq![' '] + self@.uri,
                    seq![' '],
                );
                lemma_control_free_concat(
                    seq![' '] + ht + seq![' '] + self@.method + seq![' '] + self@.uri + seq![' '],
                    self@.version,
                );
            }
        }
    }

    /// Appends the closing of the line (see [`render_close`]).
    fn push_close(&self, out: &mut Vec<char>, elapsed: &str)
        ensures
            final(out)@ == old(out)@ + render_close(self@, elapsed@),
            control_free(elapsed@) ==> closes_line(render_close(self@, elapsed@)),
    {
        let ghost base = out@;
        out.push(' ');
        push_opt_token(out, &self.user_agent);
        out.push(' ');
        push_opt_token(out, &self.referer);
        out.push(' ');
        push_str_chars(out, elapsed);
        out.push('\n');
        proof {
            assert(out@ =~= base + render_close(self@, elapsed@));
            if control_free(elapsed@) {
                let at = opt_token(self@.user_agent);
                let rt = opt_token(self@.referer);
                lemma_control_free_concat(seq![' '], at);
                lemma_control_free_concat(seq![' '] + at, seq![' ']);
                lemma_control_free_concat(seq![' '] + at + seq![' '], rt);
                lemma_control_free_concat(seq![' '] + at + seq![' '] + rt, seq![' ']);
                lemma_control_free_concat(seq![' '] + at + seq![' '] + rt + seq![' '], elapsed@);
                let body = seq![' '] + at + seq![' '] + rt + seq![' '] + elapsed@;
                let c = render_close(self@, elapsed@);
                assert(c.take(c.len() - 1) =~= body);
            }
        }
    }

    /// Renders the one log line of this record, given the elapsed-time
    /// text. Whenever the texts that bypass the encoder (action label,
    /// method, URI, version) and the elapsed text hold no control character,
    /// the result is one whole line: exactly one newline, its last
    /// character.
    pub fn render_line(&self, elapsed: &str) -> (r: String)
        ensures
            r@ == render_spec(self@, elapsed@),
            texts_control_free(self@) && control_free(elapsed@) ==> single_line(r@),
    {
        let mut out: Vec<char> = Vec::new();
        self.push_head(&mut out);
        self.push_remote(&mut out);
        self.push_request(&mut out);
        self.push_close(&mut out, elapsed);
        proof {
            assert(out@ =~= render_spec(self@, elapsed@));
            if texts_control_free(self@) && control_free(elapsed@) {
                let h = render_head(self@);
                let m = render_remote(self@);
                let q = render_request(self@);
                let c = render_close(self@, elapsed@);
                lemma_control_free_concat(h, m);
                lemma_control_free_concat(h + m, q);
                lemma_single_line_concat(h + m + q, c);
            }
        }
        crate::ext::chars_to_string(&out)
    }

    /// Writes the log line to the given sink and marks the record emitted.
    /// On success exactly one line, the rendering of this record for some
    /// control-free elapsed text, was appended to the sink; on failure
    /// nothing was, and the error is returned to the caller.
    pub fn write<S: LogSink>(self, sink: &mut S) -> (r: Result<(), WriteError>)
        ensures
            r is Ok ==> exists|e: Seq<char>|
                {
                    &&& control_free(e)
                    &&& final(sink).lines() == old(sink).lines().push(render_spec(self@, e))
                    &&& (texts_control_free(self@) ==> single_line(render_spec(self@, e)))
                },
            r is Err ==> final(sink).lines() == old(sink).lines(),
    {
        let ghost v0 = self@;
        let mut this = self;
        this.logged = true;
        let elapsed = crate::ext::elapsed_text(&this.start);
        let line = this.render_line(elapsed.as_str());
        proof {
            assert(render_spec(this@, elapsed@) == render_spec(v0, elapsed@));
        }
        let res = sink.write_line(line.as_str());
        proof {
            if res is Ok {
                assert(final(sink).lines() == old(sink).lines().push(render_spec(v0, elapsed@)));
            }
        }
        res
    }

    /// Discards the record without logging anything: it is marked emitted,
    /// so nothing is written at scope end either.
    pub fn discard(self) {
        let mut this = self;
        this.logged = true;
    }

    /// The scope-end step: if the record is still pending, marks it emitted
    /// and returns its rendered line; if it was already written or
    /// discarded, returns nothing.
    pub fn finalize_line(&mut self) -> (r: Option<String>)
        ensures
            final(self)@ == (RecordView { logged: true, ..old(self)@ }),
            old(self)@.logged ==> r is None,
            !old(self)@.logged ==> r is Some && exists|e: Seq<char>|
                {
                    &&& control_free(e)
                    &&& r->Some_0@ == render_spec(old(self)@, e)
                    &&& (texts_control_free(old(self)@) ==> single_line(r->Some_0@))
                },
    {
        if self.logged {
            proof {
                assert(self@ =~= (RecordView { logged: true, ..old(self)@ }));
            }
            return None;
        }
        self.logged = true;
        let elapsed = crate::ext::elapsed_text(&self.start);
        let line = self.render_line(elapsed.as_str());
        proof {
            assert(render_spec(self@, elapsed@) == render_spec(old(self)@, elapsed@));
            assert(line@ == render_spec(old(self)@, elapsed@));
        }
        Some(line)
    }
}

impl<A: LogDisplay> Drop for LogRequest<A> {
    /// Scope-end finalization: a record still pending renders its line and
    /// writes it to the process diagnostic stream, swallowing any write
    /// error, so that logging never fails the request path.
    ///
    /// The body is trusted glue and nothing more: the decision and the line
    /// are the verified [`LogRequest::finalize_line`], which has no
    /// precondition and is proved panic-free, and the write is the trusted
    /// [`crate::ext::write_stderr`]. Verus requires a verified drop to be
    /// `no_unwind`, and rendering allocates (an allocation may formally
    /// unwind), so this body itself cannot be verified; what is relied on is
    /// only that a panic-free allocating call does not unwind.
    #[verifier::external_body]
    fn drop(&mut self)
        opens_invariants none
        no_unwind
    {
        if let Some(line) = self.finalize_line() {
            crate::ext::write_stderr(line.as_str());
        }
    }
}

/// Strips a leading `::ffff:` from a forwarded-for value.
fn strip_fwd_prefix(f: &Vec<u8>) -> (r: Vec<u8>)
    ensures
        r@ == strip_mapped_prefix(f@),
{
    if f.len() >= 7 && f[0] == 0x3a && f[1] == 0x3a && f[2] == 0x66 && f[3] == 0x66 && f[4] == 0x66
        && f[5] == 0x66 && f[6] == 0x3a {
        proof {
            assert(f@.subrange(0, 7) =~= mapped_prefix());
        }
        let mut r: Vec<u8> = Vec::new();
        let mut i: usize = 7;
        while i < f.len()
            invariant
                7 <= i <= f@.len(),
                r@ == f@.subrange(7, i as int),
            decreases f@.len() - i,
        {
            r.push(f[i]);
            i = i + 1;
            assert(f@.subrange(7, i as int) == f@.subrange(7, i as int - 1).push(f@[i as int - 1]));
        }
        proof {
            assert(r@ =~= f@.skip(7));
        }
        r
    } else {
        proof {
            if f@.len() >= 7 {
                assert(f@.subrange(0, 7) != mapped_prefix()) by {
                    if f@.subrange(0, 7) == mapped_prefix() {
                        assert(f@[0] == 0x3a && f@[1] == 0x3a && f@[2] == 0x66 && f@[3] == 0x66
                            && f@[4] == 0x66 && f@[5] == 0x66 && f@[6] == 0x3a) by {
                            assert(forall|k: int| 0 <= k < 7 ==> f@.subrange(0, 7)[k] == f@[k]);
                        }
                    }
                }
            }
        }
        copy_bytes(f)
    }
}

/// Appends the token of an optional header value to `out`.
fn push_opt_token(out: &mut Vec<char>, v: &Option<Vec<u8>>)
    ensures
        final(out)@ == old(out)@ + opt_token(match v {
            Some(b) => Some(b@),
            None => None,
        }),
        control_free(opt_token(match v {
            Some(b) => Some(b@),
            None => None,
        })),
{
    match v {
        Some(b) => {
            let e = Escaped::from_bytes(copy_bytes(b));
            let t = e.token_chars();
            push_chars(out, &t);
        },
        None => {
            out.push('"');
            out.push('"');
            proof {
                assert(token_of(Seq::<u8>::empty()) == seq!['"', '"']);
                assert(out@ =~= old(out)@ + token_of(Seq::<u8>::empty()));
                assert(!is_control_char('"'));
            }
        },
    }
}

} // verus!
