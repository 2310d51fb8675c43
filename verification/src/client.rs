//! The client role of the transport: one new connection per call, one
//! request frame written, one response frame read, then the connection
//! closes. Nothing is assumed of what the daemon answers; every reply is
//! decoded and checked before it is handed on.

use vstd::prelude::*;
use crate::color::Color;
use crate::error::Error;
use crate::glob::Glob;
use crate::ipc::PayloadResult;
use crate::ipc::Request;
use crate::ipc::Response;
use crate::ipc::frame_length;
use crate::ipc::frame_payload;
use crate::registry::EntryData;
use crate::registry::names_view;
use crate::tag::Tag;

verus! {

#[verifier::external_type_specification]
#[verifier::external_body]
pub struct ExLocalSocketStream(interprocess::local_socket::LocalSocketStream);

/// Relies on interprocess's `LocalSocketStream::connect`: opens a
/// connection to the local endpoint, or fails.
#[verifier::external_body]
fn socket_connect(path: &str) -> (r: Result<
    interprocess::local_socket::LocalSocketStream,
    Error,
>)
    ensures
        r matches Err(e) ==> e is Transport,
{
    match interprocess::local_socket::LocalSocketStream::connect(path) {
        Ok(s) => Ok(s),
        Err(e) => Err(Error::Transport(e.to_string())),
    }
}

/// Relies on std's `Write::write_all` on the stream: writes every byte
/// or fails.
#[verifier::external_body]
fn socket_write(
    conn: &mut interprocess::local_socket::LocalSocketStream,
    bytes: &Vec<u8>,
) -> (r: Result<(), Error>)
    ensures
        r matches Err(e) ==> e is Transport,
{
    match std::io::Write::write_all(conn, bytes.as_slice()) {
        Ok(()) => Ok(()),
        Err(e) => Err(Error::Transport(e.to_string())),
    }
}

/// Relies on std's `Read::read_to_end` on the stream: the bytes the peer
/// sent until it closed, or a failure.
#[verifier::external_body]
fn socket_read_all(conn: &mut interprocess::local_socket::LocalSocketStream) -> (r: Result<
    Vec<u8>,
    Error,
>)
    ensures
        r matches Err(e) ==> e is Transport,
{
    let mut buf: Vec<u8> = Vec::new();
    match std::io::Read::read_to_end(conn, &mut buf) {
        Ok(_) => Ok(buf),
        Err(e) => Err(Error::Transport(e.to_string())),
    }
}

/// The transport client: the endpoint it dials.
#[derive(Debug)]
pub struct IpcClient {
    pub path: String,
}

impl IpcClient {
    /// A client of the endpoint at `path`.
    pub fn new(path: String) -> (c: IpcClient)
        ensures
            c.path@ == path@,
    {
        IpcClient { path }
    }

    /// One exchange: writes the request as one frame, reads one response
    /// frame. The daemon writes one frame and closes, so the client reads
    /// to end of stream and then holds the bytes against the declared
    /// length — exactly one frame, no trailing bytes — which accepts the
    /// same streams as reading exactly the declared count. The reply came
    /// over the wire, so nothing is assumed of its content beyond decoding
    /// as exactly one response.
    pub fn request(&self, request: &Request) -> (r: Result<Response, Error>)
        ensures
            r matches Err(e) ==> e is Transport || e is DecodeError,
    {
        let payload = request.to_payload();
        let framed = frame_payload(&payload);
        let mut conn = match socket_connect(self.path.as_str()) {
            Ok(c) => c,
            Err(e) => {
                return Err(e);
            },
        };
        match socket_write(&mut conn, &framed) {
            Ok(()) => {},
            Err(e) => {
                return Err(e);
            },
        }
        let raw = match socket_read_all(&mut conn) {
            Ok(b) => b,
            Err(e) => {
                return Err(e);
            },
        };
        let len = match frame_length(&raw) {
            Some(l) => l,
            None => {
                return Err(Error::Transport("response frame too short".to_owned()));
            },
        };
        if (raw.len() - 8) as u64 != len {
            return Err(Error::Transport("response frame length mismatch".to_owned()));
        }
        let mut body: Vec<u8> = Vec::new();
        let n = raw.len();
        let mut i: usize = 8;
        while i < n
            invariant
                8 <= i <= n,
                n == raw@.len(),
                body@ =~= raw@.subrange(8, i as int),
            decreases n - i,
        {
            body.push(raw[i]);
            i = i + 1;
        }
        match Response::from_payload(&body) {
            Some(resp) => Ok(resp),
            None => Err(Error::DecodeError),
        }
    }
}

/// The one message a failed batch renders as: each per-item failure on a
/// line of its own, introduced by a newline and a dash.
pub open spec fn spec_joined(msgs: Seq<Seq<char>>) -> Seq<char>
    decreases msgs.len(),
{
    if msgs.len() == 0 {
        Seq::empty()
    } else {
        spec_joined(msgs.drop_last()) + "\n - "@ + msgs.last()
    }
}

/// Joins per-item failure strings into the one message a batch failure
/// renders as: one line per failed path or tag.
pub fn join_errors(msgs: &Vec<String>) -> (r: String)
    ensures
        r@ == spec_joined(names_view(msgs@)),
{
    let mut out = String::new();
    let n = msgs.len();
    let mut k: usize = 0;
    while k < n
        invariant
            n == msgs@.len(),
            k <= n,
            out@ == spec_joined(names_view(msgs@).take(k as int)),
        decreases n - k,
    {
        out.append("\n - ");
        out.append(msgs[k].as_str());
        proof {
            let vs = names_view(msgs@);
            assert(vs.take(k as int + 1).drop_last() =~= vs.take(k as int));
            assert(vs.take(k as int + 1).last() == msgs@[k as int]@);
            assert(out@ == spec_joined(vs.take(k as int + 1)));
        }
        k = k + 1;
    }
    proof {
        assert(names_view(msgs@).take(n as int) =~= names_view(msgs@));
    }
    out
}

/// The payload of a batch-mutation response, under whichever of the five
/// batch variants carries it; nothing for the other variants.
pub open spec fn multi_payload(resp: Response) -> Option<PayloadResult<(), Vec<String>>> {
    match resp {
        Response::TagFiles(p) => Some(p),
        Response::UntagFiles(p) => Some(p),
        Response::CopyTags(p) => Some(p),
        Response::ClearFiles(p) => Some(p),
        Response::ClearTags(p) => Some(p),
        _ => None,
    }
}

/// The payload of a single-subject response, under whichever of the
/// three single-subject variants carries it; nothing for the others.
pub open spec fn single_payload(resp: Response) -> Option<PayloadResult<(), String>> {
    match resp {
        Response::EditTag(p) => Some(p),
        Response::Ping(p) => Some(p),
        Response::ClearCache(p) => Some(p),
        _ => None,
    }
}

/// Interprets the reply to a batch mutation: a value payload under any
/// batch variant is success, an error payload renders its per-item lines
/// as one message, and any other variant is a decode failure.
pub fn interpret_multi(resp: Response) -> (r: Result<(), Error>)
    ensures
        multi_payload(resp) is None ==> (r matches Err(e) && e is DecodeError),
        multi_payload(resp) matches Some(p) ==> match p {
            PayloadResult::Value(_) => r is Ok,
            PayloadResult::Error(msgs) => r matches Err(e) && (e matches Error::Other(m) && m@
                == spec_joined(names_view(msgs@))),
        },
{
    match resp {
        Response::TagFiles(p) | Response::UntagFiles(p) | Response::CopyTags(p)
            | Response::ClearFiles(p) | Response::ClearTags(p) => match p {
            PayloadResult::Value(_) => Ok(()),
            PayloadResult::Error(msgs) => Err(Error::Other(join_errors(&msgs))),
        },
        _ => Err(Error::DecodeError),
    }
}

/// Interprets the reply to a single-subject operation: a value payload
/// under any single-subject variant is success, an error payload is
/// carried as the message, and any other variant is a decode failure.
pub fn interpret_single(resp: Response) -> (r: Result<(), Error>)
    ensures
        single_payload(resp) is None ==> (r matches Err(e) && e is DecodeError),
        single_payload(resp) matches Some(p) ==> match p {
            PayloadResult::Value(_) => r is Ok,
            PayloadResult::Error(msg) => r matches Err(e) && (e matches Error::Other(m) && m
                == msg),
        },
{
    match resp {
        Response::EditTag(p) | Response::Ping(p) | Response::ClearCache(p) => match p {
            PayloadResult::Value(_) => Ok(()),
            PayloadResult::Error(msg) => Err(Error::Other(msg)),
        },
        _ => Err(Error::DecodeError),
    }
}

/// Interprets a tag-listing reply: only the tag-listing variant is
/// accepted, its value handed through untouched.
pub fn interpret_list_tags(resp: Response) -> (r: Result<Vec<(Tag, Vec<EntryData>)>, Error>)
    ensures
        resp matches Response::ListTags(p) ==> match p {
            PayloadResult::Value(v) => r matches Ok(w) && w == v,
            PayloadResult::Error(m) => r matches Err(e) && (e matches Error::Other(mm) && mm
                == m),
        },
        !(resp is ListTags) ==> (r matches Err(e) && e is DecodeError),
{
    match resp {
        Response::ListTags(PayloadResult::Value(v)) => Ok(v),
        Response::ListTags(PayloadResult::Error(m)) => Err(Error::Other(m)),
        _ => Err(Error::DecodeError),
    }
}

/// Interprets a file-listing reply: only the file-listing variant is
/// accepted, its value handed through untouched.
pub fn interpret_list_files(resp: Response) -> (r: Result<Vec<(EntryData, Vec<Tag>)>, Error>)
    ensures
        resp matches Response::ListFiles(p) ==> match p {
            PayloadResult::Value(v) => r matches Ok(w) && w == v,
            PayloadResult::Error(m) => r matches Err(e) && (e matches Error::Other(mm) && mm
                == m),
        },
        !(resp is ListFiles) ==> (r matches Err(e) && e is DecodeError),
{
    match resp {
        Response::ListFiles(PayloadResult::Value(v)) => Ok(v),
        Response::ListFiles(PayloadResult::Error(m)) => Err(Error::Other(m)),
        _ => Err(Error::DecodeError),
    }
}

/// Interprets an inspection reply: only the inspection variant is
/// accepted, its value handed through untouched.
pub fn interpret_inspect(resp: Response) -> (r: Result<Vec<(EntryData, Vec<Tag>)>, Error>)
    ensures
        resp matches Response::InspectFiles(p) ==> match p {
            PayloadResult::Value(v) => r matches Ok(w) && w == v,
            PayloadResult::Error(m) => r matches Err(e) && (e matches Error::Other(mm) && mm
                == m),
        },
        !(resp is InspectFiles) ==> (r matches Err(e) && e is DecodeError),
{
    match resp {
        Response::InspectFiles(PayloadResult::Value(v)) => Ok(v),
        Response::InspectFiles(PayloadResult::Error(m)) => Err(Error::Other(m)),
        _ => Err(Error::DecodeError),
    }
}

/// Interprets a search reply: only the search variant is accepted, its
/// value handed through untouched.
pub fn interpret_search(resp: Response) -> (r: Result<Vec<EntryData>, Error>)
    ensures
        resp matches Response::Search(p) ==> match p {
            PayloadResult::Value(v) => r matches Ok(w) && w == v,
            PayloadResult::Error(m) => r matches Err(e) && (e matches Error::Other(mm) && mm
                == m),
        },
        !(resp is Search) ==> (r matches Err(e) && e is DecodeError),
{
    match resp {
        Response::Search(PayloadResult::Value(v)) => Ok(v),
        Response::Search(PayloadResult::Error(m)) => Err(Error::Other(m)),
        _ => Err(Error::DecodeError),
    }
}

/// The caller-facing client: each operation dials the daemon once and
/// interprets the reply, turning per-item failures into one error.
#[derive(Debug)]
pub struct Client {
    pub client: IpcClient,
}

impl Client {
    /// A client of the endpoint at `socket`.
    pub fn new(socket: String) -> (c: Client)
        ensures
            c.client.path@ == socket@,
    {
        Client { client: IpcClient::new(socket) }
    }

    fn unit_multi(&self, request: Request) -> (r: Result<(), Error>)
        ensures
            r matches Err(e) ==> e is Transport || e is DecodeError || e is Other,
    {
        match self.client.request(&request) {
            Ok(resp) => interpret_multi(resp),
            Err(e) => Err(e),
        }
    }

    fn unit_single(&self, request: Request) -> (r: Result<(), Error>)
        ensures
            r matches Err(e) ==> e is Transport || e is DecodeError || e is Other,
    {
        match self.client.request(&request) {
            Ok(resp) => interpret_single(resp),
            Err(e) => Err(e),
        }
    }

    /// Tags each of the files with each of the tags.
    pub fn tag_files(&self, files: Vec<String>, tags: Vec<Tag>) -> (r: Result<(), Error>)
        ensures
            r matches Err(e) ==> e is Transport || e is DecodeError || e is Other,
    {
        self.unit_multi(Request::TagFiles { files, tags })
    }

    /// Tags every file the pattern resolves to.
    pub fn tag_files_pattern(&self, glob: Glob, tags: Vec<Tag>) -> (r: Result<(), Error>)
        ensures
            r matches Err(e) ==> e is Transport || e is DecodeError || e is Other,
    {
        self.unit_multi(Request::TagFilesPattern { glob, tags })
    }

    /// Removes each of the tags from each of the files.
    pub fn untag_files(&self, files: Vec<String>, tags: Vec<Tag>) -> (r: Result<(), Error>)
        ensures
            r matches Err(e) ==> e is Transport || e is DecodeError || e is Other,
    {
        self.unit_multi(Request::UntagFiles { files, tags })
    }

    /// Removes the tags from every file the pattern resolves to.
    pub fn untag_files_pattern(&self, glob: Glob, tags: Vec<Tag>) -> (r: Result<(), Error>)
        ensures
            r matches Err(e) ==> e is Transport || e is DecodeError || e is Other,
    {
        self.unit_multi(Request::UntagFilesPattern { glob, tags })
    }

    /// Repaints a tag.
    pub fn edit_tag(&self, tag: String, color: Color) -> (r: Result<(), Error>)
        ensures
            r matches Err(e) ==> e is Transport || e is DecodeError || e is Other,
    {
        self.unit_single(Request::EditTag { tag, color })
    }

    /// Copies the source file's tags onto the targets.
    pub fn copy_tags(&self, source: String, target: Vec<String>) -> (r: Result<(), Error>)
        ensures
            r matches Err(e) ==> e is Transport || e is DecodeError || e is Other,
    {
        self.unit_multi(Request::CopyTags { source, target })
    }

    /// Copies the source file's tags onto every file the pattern
    /// resolves to.
    pub fn copy_tags_pattern(&self, source: String, glob: Glob) -> (r: Result<(), Error>)
        ensures
            r matches Err(e) ==> e is Transport || e is DecodeError || e is Other,
    {
        self.unit_multi(Request::CopyTagsPattern { source, glob })
    }

    /// Clears all tags from the files.
    pub fn clear_files(&self, files: Vec<String>) -> (r: Result<(), Error>)
        ensures
            r matches Err(e) ==> e is Transport || e is DecodeError || e is Other,
    {
        self.unit_multi(Request::ClearFiles { files })
    }

    /// Clears all tags from every file the pattern resolves to.
    pub fn clear_files_pattern(&self, glob: Glob) -> (r: Result<(), Error>)
        ensures
            r matches Err(e) ==> e is Transport || e is DecodeError || e is Other,
    {
        self.unit_multi(Request::ClearFilesPattern { glob })
    }

    /// Deletes the named tags outright.
    pub fn clear_tags(&self, tags: Vec<String>) -> (r: Result<(), Error>)
        ensures
            r matches Err(e) ==> e is Transport || e is DecodeError || e is Other,
    {
        self.unit_multi(Request::ClearTags { tags })
    }

    /// All tags, each with its entries when asked.
    pub fn list_tags(&self, with_files: bool) -> (r: Result<
        Vec<(Tag, Vec<EntryData>)>,
        Error,
    >)
        ensures
            r matches Err(e) ==> e is Transport || e is DecodeError || e is Other,
    {
        match self.client.request(&Request::ListTags { with_files }) {
            Ok(resp) => interpret_list_tags(resp),
            Err(e) => Err(e),
        }
    }

    /// All tracked files, each with its tags when asked.
    pub fn list_files(&self, with_tags: bool) -> (r: Result<
        Vec<(EntryData, Vec<Tag>)>,
        Error,
    >)
        ensures
            r matches Err(e) ==> e is Transport || e is DecodeError || e is Other,
    {
        match self.client.request(&Request::ListFiles { with_tags }) {
            Ok(resp) => interpret_list_files(resp),
            Err(e) => Err(e),
        }
    }

    /// The given files and their tags, tracked ones only.
    pub fn inspect_files(&self, files: Vec<String>) -> (r: Result<
        Vec<(EntryData, Vec<Tag>)>,
        Error,
    >)
        ensures
            r matches Err(e) ==> e is Transport || e is DecodeError || e is Other,
    {
        match self.client.request(&Request::InspectFiles { files }) {
            Ok(resp) => interpret_inspect(resp),
            Err(e) => Err(e),
        }
    }

    /// The files the pattern resolves to, with their tags.
    pub fn inspect_files_pattern(&self, glob: Glob) -> (r: Result<
        Vec<(EntryData, Vec<Tag>)>,
        Error,
    >)
        ensures
            r matches Err(e) ==> e is Transport || e is DecodeError || e is Other,
    {
        match self.client.request(&Request::InspectFilesPattern { glob }) {
            Ok(resp) => interpret_inspect(resp),
            Err(e) => Err(e),
        }
    }

    /// The entries carrying any, or all, of the named tags.
    pub fn search(&self, tags: Vec<String>, any: bool) -> (r: Result<Vec<EntryData>, Error>)
        ensures
            r matches Err(e) ==> e is Transport || e is DecodeError || e is Other,
    {
        match self.client.request(&Request::Search { tags, any }) {
            Ok(resp) => interpret_search(resp),
            Err(e) => Err(e),
        }
    }

    /// Checks the daemon answers at all.
    pub fn ping(&self) -> (r: Result<(), Error>)
        ensures
            r matches Err(e) ==> e is Transport || e is DecodeError || e is Other,
    {
        self.unit_single(Request::Ping)
    }

    /// Empties the daemon's registry.
    pub fn clear_cache(&self) -> (r: Result<(), Error>)
        ensures
            r matches Err(e) ==> e is Transport || e is DecodeError || e is Other,
    {
        self.unit_single(Request::ClearCache)
    }
}

} // verus!
