//! Store URLs: which store a URL names, and where in it.
use vstd::prelude::*;
use crate::job::opt_chars;
use crate::text::{
    filled, pieces, same_text, starts_with, strip_prefix, trim_leading_slashes, without_leading,
    without_prefix, Separator,
};

verus! {

/// A store that holds objects.
#[derive(Debug)]
pub enum StoreKind {
    /// A bucket of AWS S3 or a compatible service.
    S3 { bucket: String },
    /// A bucket of Google Cloud Storage.
    Gcs { bucket: String },
    /// A container of Azure Blob Storage.
    Azure { container: String },
    /// A directory of the local file system.
    Local { root: String },
    /// Main memory, empty at first.
    Memory,
}

/// What a `StoreKind` is, with its names as character sequences.
pub enum StoreKindView {
    S3 { bucket: Seq<char> },
    Gcs { bucket: Seq<char> },
    Azure { container: Seq<char> },
    Local { root: Seq<char> },
    Memory,
}

impl View for StoreKind {
    type V = StoreKindView;

    open spec fn view(&self) -> StoreKindView {
        match self {
            StoreKind::S3 { bucket } => StoreKindView::S3 { bucket: bucket@ },
            StoreKind::Gcs { bucket } => StoreKindView::Gcs { bucket: bucket@ },
            StoreKind::Azure { container } => StoreKindView::Azure { container: container@ },
            StoreKind::Local { root } => StoreKindView::Local { root: root@ },
            StoreKind::Memory => StoreKindView::Memory,
        }
    }
}

/// The store that a URL names, and the path in it under which the URL's objects lie.
#[derive(Debug)]
pub struct ResolvedStore {
    pub store: StoreKind,
    pub prefix: String,
}

/// Why a URL names no store.
#[derive(Debug)]
pub enum StoreUrlError {
    /// The URL does not parse; the text says why.
    BadUrl(String),
    /// The URL has none of the schemes of a store.
    Unsupported(String),
}

/// The schemes of the clouds.
#[derive(Clone, Copy, PartialEq, Eq, Structural, Debug)]
pub enum CloudScheme {
    S3,
    Gcs,
    Azure,
}

/// The scheme of a cloud that a URL starts with.
pub open spec fn cloud_scheme(raw: Seq<char>) -> Option<CloudScheme> {
    if "s3://"@.is_prefix_of(raw) {
        Some(CloudScheme::S3)
    } else if "gs://"@.is_prefix_of(raw) {
        Some(CloudScheme::Gcs)
    } else if "az://"@.is_prefix_of(raw) {
        Some(CloudScheme::Azure)
    } else {
        None
    }
}

/// The URL is a path of the local file system, or names one.
pub open spec fn is_local(raw: Seq<char>) -> bool {
    "file://"@.is_prefix_of(raw) || (raw.len() > 0 && raw[0] == '/')
}

/// The bucket or container that a scheme and a host name.
pub open spec fn cloud_store(scheme: CloudScheme, host: Option<Seq<char>>) -> StoreKindView {
    let name = match host {
        Some(host) => host,
        None => Seq::empty(),
    };
    match scheme {
        CloudScheme::S3 => StoreKindView::S3 { bucket: name },
        CloudScheme::Gcs => StoreKindView::Gcs { bucket: name },
        CloudScheme::Azure => StoreKindView::Azure { container: name },
    }
}

/// The host and the path of a URL as `url` parses it, or the text of its error.
pub uninterp spec fn url_parts(raw: Seq<char>) -> Result<
    (Option<Seq<char>>, Seq<char>),
    Seq<char>,
>;

/// The path that `object_store` makes of a text: its parts between slashes, without
/// the empty ones, each with the characters that stores avoid percent-encoded.
pub uninterp spec fn object_path(text: Seq<char>) -> Seq<char>;

/// A character that stores take as it is: printable ASCII but for those that some store
/// avoids.
pub open spec fn plain_char(c: char) -> bool {
    &&& ' ' <= c <= '}'
    &&& c != '"' && c != '#' && c != '%' && c != '*' && c != '/' && c != '<' && c != '>' && c != '?'
    &&& c != '[' && c != '\\' && c != ']' && c != '^' && c != '`' && c != '{' && c != '|' && c != '}'
}

/// A text whose parts between slashes stores take as they are: plain characters, and no
/// part that means the same or the parent directory.
pub open spec fn is_plain_path(text: Seq<char>) -> bool {
    &&& forall|i: int| 0 <= i < text.len() ==> plain_char(#[trigger] text[i]) || text[i] == '/'
    &&& forall|k: int|
        0 <= k < pieces(text, Separator::Slash).len() ==> {
            &&& #[trigger] pieces(text, Separator::Slash)[k] != seq!['.']
            &&& pieces(text, Separator::Slash)[k] != seq!['.', '.']
        }
}

/// The parts with slashes between.
pub open spec fn joined(parts: Seq<Seq<char>>) -> Seq<char>
    decreases parts.len(),
{
    if parts.len() == 0 {
        Seq::empty()
    } else if parts.len() == 1 {
        parts[0]
    } else {
        joined(parts.drop_last()) + seq!['/'] + parts.last()
    }
}

/// The parts of a path that are not empty, with one slash between each two.
pub open spec fn tidied(text: Seq<char>) -> Seq<char> {
    joined(filled(pieces(text, Separator::Slash)))
}

/// A path below another; nothing below a path, or a path below nothing, is that path.
pub open spec fn below(a: Seq<char>, b: Seq<char>) -> Seq<char> {
    if a.len() == 0 {
        b
    } else if b.len() == 0 {
        a
    } else {
        a + seq!['/'] + b
    }
}

/// A character of the usual names of buckets and containers.
pub open spec fn name_char(c: char) -> bool {
    'a' <= c <= 'z' || '0' <= c <= '9' || c == '-' || c == '.' || c == '_'
}

/// What a cloud's URL has between its scheme and the first slash behind it.
pub open spec fn bucket_in(raw: Seq<char>) -> Seq<char> {
    pieces(raw.skip(5), Separator::Slash)[0]
}

/// What a cloud's URL has behind its bucket.
pub open spec fn key_in(raw: Seq<char>) -> Seq<char> {
    raw.skip(5 + bucket_in(raw).len() as int)
}

/// A cloud's URL that is read as it stands: a bucket with a usual name, and a plain path
/// without blanks. The parser counts to 32 bits.
pub open spec fn is_plain_url(raw: Seq<char>) -> bool {
    &&& cloud_scheme(raw) is Some
    &&& raw.len() <= u32::MAX
    &&& bucket_in(raw).len() > 0
    &&& forall|i: int| 0 <= i < bucket_in(raw).len() ==> name_char(#[trigger] bucket_in(raw)[i])
    &&& is_plain_path(key_in(raw))
    &&& !key_in(raw).contains(' ')
}

/// The host and the path of a URL.
#[derive(Debug)]
pub struct UrlParts {
    pub host: Option<String>,
    pub path: String,
}

/// Parses a URL with `url::Url::parse` and takes its `host_str` and `path`. What
/// comes back, an error's text included, is what `url_parts` names. A plain URL of a
/// cloud, whose scheme is none of those that the parser treats in a special way, parses,
/// and host and path are as the URL has them.
#[verifier::external_body]
fn parse_url(raw: &str) -> (r: Result<UrlParts, String>)
    ensures
        match r {
            Ok(parts) => {
                &&& url_parts(raw@) == Ok::<(Option<Seq<char>>, Seq<char>), Seq<char>>(
                    (opt_chars(parts.host), parts.path@),
                )
                &&& is_plain_url(raw@) ==> opt_chars(parts.host) == Some(bucket_in(raw@))
                    && parts.path@ == key_in(raw@)
            },
            Err(e) => {
                &&& url_parts(raw@) == Err::<(Option<Seq<char>>, Seq<char>), Seq<char>>(e@)
                &&& !is_plain_url(raw@)
            },
        },
{
    match url::Url::parse(raw) {
        Ok(url) => Ok(
            UrlParts { host: url.host_str().map(|h| h.to_string()), path: url.path().to_string() },
        ),
        Err(e) => Err(e.to_string()),
    }
}

/// Makes a path of a text with `object_store::path::Path::from`. The path is what
/// `object_path` names; of a plain path it keeps the parts that are not empty.
#[verifier::external_body]
pub(crate) fn object_path_text(text: &str) -> (path: String)
    ensures
        path@ == object_path(text@),
        is_plain_path(text@) ==> path@ == tidied(text@),
{
    object_store::path::Path::from(text).to_string()
}

impl StoreUrlError {
    /// The message for an error.
    pub open spec fn text(self) -> Seq<char> {
        match self {
            StoreUrlError::BadUrl(why) => why@,
            StoreUrlError::Unsupported(raw) => "Unsupported store URL: "@ + raw@
                + ". Use s3://, gs://, az://, file://, or /path"@,
        }
    }

    /// The message for the error.
    pub fn message(&self) -> (text: String)
        ensures
            text@ == self.text(),
    {
        match self {
            StoreUrlError::BadUrl(why) => why.clone(),
            StoreUrlError::Unsupported(raw) => {
                let mut text = "Unsupported store URL: ".to_owned();
                text.append(raw.as_str());
                text.append(". Use s3://, gs://, az://, file://, or /path");
                text
            },
        }
    }
}

/// The store and the path in it that a cloud's scheme and the parts of a URL name.
pub fn cloud_location(scheme: CloudScheme, parts: UrlParts) -> (r: ResolvedStore)
    ensures
        r.store@ == cloud_store(scheme, opt_chars(parts.host)),
        r.prefix@ == object_path(without_leading(parts.path@, '/')),
        is_plain_path(without_leading(parts.path@, '/')) ==> r.prefix@ == tidied(
            without_leading(parts.path@, '/'),
        ),
{
    let name = match parts.host {
        Some(host) => host,
        None => {
            let none = String::new();
            assert(none@ =~= Seq::empty());
            none
        },
    };
    let prefix = object_path_text(trim_leading_slashes(parts.path.as_str()));
    let store = match scheme {
        CloudScheme::S3 => StoreKind::S3 { bucket: name },
        CloudScheme::Gcs => StoreKind::Gcs { bucket: name },
        CloudScheme::Azure => StoreKind::Azure { container: name },
    };
    ResolvedStore { store, prefix }
}

/// The scheme of a cloud that a URL starts with.
pub fn scheme_of(raw: &str) -> (scheme: Option<CloudScheme>)
    ensures
        scheme == cloud_scheme(raw@),
{
    if starts_with(raw, "s3://") {
        Some(CloudScheme::S3)
    } else if starts_with(raw, "gs://") {
        Some(CloudScheme::Gcs)
    } else if starts_with(raw, "az://") {
        Some(CloudScheme::Azure)
    } else {
        None
    }
}

/// `r` says which store a URL names and where in it, or why it names none.
pub open spec fn resolves_to(raw: Seq<char>, r: Result<ResolvedStore, StoreUrlError>) -> bool {
    match cloud_scheme(raw) {
        Some(scheme) => match url_parts(raw) {
            Ok((host, path)) => {
                &&& r matches Ok(found)
                &&& found.store@ == cloud_store(scheme, host)
                &&& found.prefix@ == object_path(without_leading(path, '/'))
                &&& is_plain_path(without_leading(path, '/')) ==> found.prefix@ == tidied(
                    without_leading(path, '/'),
                )
            },
            Err(why) => r matches Err(StoreUrlError::BadUrl(text)) && text@ == why,
        },
        None => if is_local(raw) {
            &&& r matches Ok(found)
            &&& found.store@ == (StoreKindView::Local { root: without_prefix(raw, "file://"@) })
            &&& found.prefix@.len() == 0
        } else if raw == "mem://"@ {
            &&& r matches Ok(found)
            &&& found.store@ == StoreKindView::Memory
            &&& found.prefix@.len() == 0
        } else {
            r matches Err(StoreUrlError::Unsupported(text)) && text@ == raw
        },
    }
}

/// `r` holds the bucket and the path that a plain URL of a cloud spells out.
pub open spec fn resolves_plainly(raw: Seq<char>, r: Result<ResolvedStore, StoreUrlError>) -> bool {
    &&& r matches Ok(found)
    &&& found.store@ == cloud_store(cloud_scheme(raw)->0, Some(bucket_in(raw)))
    &&& found.prefix@ == tidied(key_in(raw))
}

/// Finds the store that a URL names and the path in it.
pub fn resolve(raw: &str) -> (r: Result<ResolvedStore, StoreUrlError>)
    ensures
        resolves_to(raw@, r),
        is_plain_url(raw@) ==> resolves_plainly(raw@, r),
{
    if let Some(scheme) = scheme_of(raw) {
        proof {
            if is_plain_url(raw@) {
                lemma_leading_slashes(key_in(raw@));
            }
        }
        return match parse_url(raw) {
            Ok(parts) => Ok(cloud_location(scheme, parts)),
            Err(why) => Err(StoreUrlError::BadUrl(why)),
        };
    }
    proof {
        reveal_strlit("/");
        reveal_strlit("");
        lemma_empty_path(""@);
    }
    let local = starts_with(raw, "file://") || starts_with(raw, "/");
    proof {
        if raw@.len() > 0 {
            assert(raw@.subrange(0, 1) =~= seq![raw@[0]]);
            assert("/"@ =~= seq!['/']);
            if "/"@.is_prefix_of(raw@) {
                assert("/"@ == raw@.subrange(0, 1));
                assert(raw@[0] == raw@.subrange(0, 1)[0]);
            } else if raw@[0] == '/' {
                assert("/"@ =~= raw@.subrange(0, 1));
            }
        }
    }
    if local {
        let root = strip_prefix(raw, "file://").to_owned();
        Ok(ResolvedStore { store: StoreKind::Local { root }, prefix: object_path_text("") })
    } else if same_text(raw, "mem://") {
        Ok(ResolvedStore { store: StoreKind::Memory, prefix: object_path_text("") })
    } else {
        Err(StoreUrlError::Unsupported(raw.to_owned()))
    }
}

/// How a client for a cloud is set up: a large pool, so that objects copied at the same
/// time do not wait for a connection, and pings that keep connections open.
#[derive(Clone, Copy, PartialEq, Eq, Structural, Debug)]
pub struct CloudClientOptions {
    pub allow_http2: bool,
    pub pool_max_idle_per_host: usize,
    pub http2_keep_alive_interval_secs: u64,
    pub http2_keep_alive_timeout_secs: u64,
    pub http2_keep_alive_while_idle: bool,
    pub connect_timeout_secs: u64,
}

/// The options for every cloud.
pub fn cloud_client_options() -> (options: CloudClientOptions)
    ensures
        options == (CloudClientOptions {
            allow_http2: true,
            pool_max_idle_per_host: 32,
            http2_keep_alive_interval_secs: 5,
            http2_keep_alive_timeout_secs: 15,
            http2_keep_alive_while_idle: true,
            connect_timeout_secs: 10,
        }),
{
    CloudClientOptions {
        allow_http2: true,
        pool_max_idle_per_host: 32,
        http2_keep_alive_interval_secs: 5,
        http2_keep_alive_timeout_secs: 15,
        http2_keep_alive_while_idle: true,
        connect_timeout_secs: 10,
    }
}

/// The empty path is plain, and stays empty.
pub proof fn lemma_empty_path(text: Seq<char>)
    requires
        text.len() == 0,
    ensures
        is_plain_path(text),
        tidied(text).len() == 0,
{
    let parts = pieces(text, Separator::Slash);
    assert(parts =~= seq![Seq::<char>::empty()]);
    assert(parts.drop_last() =~= Seq::<Seq<char>>::empty());
    assert(parts[0].len() == 0);
    reveal_with_fuel(filled, 2);
    assert(filled(parts).len() == 0);
}

/// A slash between two texts parts their pieces.
proof fn lemma_pieces_around_slash(a: Seq<char>, b: Seq<char>)
    ensures
        pieces(a + seq!['/'] + b, Separator::Slash) == pieces(a, Separator::Slash) + pieces(
            b,
            Separator::Slash,
        ),
        pieces(b, Separator::Slash).len() > 0,
    decreases b.len(),
{
    let sep = Separator::Slash;
    let whole = a + seq!['/'] + b;
    if b.len() == 0 {
        assert(whole.drop_last() =~= a);
        assert(whole.last() == '/');
        assert(pieces(b, sep) =~= seq![Seq::<char>::empty()]);
        assert(pieces(whole, sep) =~= pieces(a, sep) + pieces(b, sep));
    } else {
        let rest = b.drop_last();
        lemma_pieces_around_slash(a, rest);
        assert(whole.drop_last() =~= a + seq!['/'] + rest);
        assert(whole.last() == b.last());
        let (p, q) = (pieces(a, sep), pieces(rest, sep));
        if sep.is(b.last()) {
            assert((p + q).push(Seq::empty()) =~= p + q.push(Seq::empty()));
        } else {
            assert((p + q).last() == q.last());
            assert((p + q).drop_last() =~= p + q.drop_last());
            let longer = q.last().push(b.last());
            assert((p + q).drop_last().push(longer) =~= p + q.drop_last().push(longer));
        }
    }
}

proof fn lemma_filled_adds(a: Seq<Seq<char>>, b: Seq<Seq<char>>)
    ensures
        filled(a + b) == filled(a) + filled(b),
    decreases b.len(),
{
    if b.len() == 0 {
        assert(a + b =~= a);
        assert(filled(a) + filled(b) =~= filled(a));
    } else {
        assert((a + b).drop_last() =~= a + b.drop_last());
        assert((a + b).last() == b.last());
        lemma_filled_adds(a, b.drop_last());
        if b.last().len() > 0 {
            assert((filled(a) + filled(b.drop_last())).push(b.last()) =~= filled(a) + filled(
                b.drop_last(),
            ).push(b.last()));
        }
    }
}

spec fn all_filled(parts: Seq<Seq<char>>) -> bool {
    forall|i: int| 0 <= i < parts.len() ==> (#[trigger] parts[i]).len() > 0
}

proof fn lemma_filled_is_filled(parts: Seq<Seq<char>>)
    ensures
        all_filled(filled(parts)),
        all_filled(parts) ==> filled(parts) == parts,
    decreases parts.len(),
{
    if parts.len() > 0 {
        let rest = parts.drop_last();
        lemma_filled_is_filled(rest);
        if all_filled(parts) {
            assert forall|i: int| 0 <= i < rest.len() implies (#[trigger] rest[i]).len() > 0 by {
                assert(rest[i] == parts[i]);
            }
            assert(parts[parts.len() - 1].len() > 0);
            assert(rest.push(parts.last()) =~= parts);
        }
    } else {
        assert(filled(parts) =~= parts);
    }
}

proof fn lemma_joined_adds(a: Seq<Seq<char>>, b: Seq<Seq<char>>)
    requires
        all_filled(a),
        all_filled(b),
    ensures
        joined(a + b) == below(joined(a), joined(b)),
        joined(b).len() == 0 <==> b.len() == 0,
    decreases b.len(),
{
    lemma_joined_len(a);
    lemma_joined_len(b);
    if b.len() == 0 {
        assert(a + b =~= a);
        assert(below(joined(a), joined(b)) =~= joined(a));
    } else {
        let rest = b.drop_last();
        assert forall|i: int| 0 <= i < rest.len() implies (#[trigger] rest[i]).len() > 0 by {
            assert(rest[i] == b[i]);
        }
        lemma_joined_adds(a, rest);
        lemma_joined_len(rest);
        assert((a + b).drop_last() =~= a + rest);
        assert((a + b).last() == b.last());
        if a.len() == 0 {
            assert(a + b =~= b);
        } else if rest.len() == 0 {
            assert(a + rest =~= a);
            assert(b[0] == b.last());
        } else {
            assert(joined(a) + seq!['/'] + joined(rest) + seq!['/'] + b.last() =~= joined(a)
                + seq!['/'] + (joined(rest) + seq!['/'] + b.last()));
        }
    }
}

proof fn lemma_joined_len(parts: Seq<Seq<char>>)
    requires
        all_filled(parts),
    ensures
        joined(parts).len() == 0 <==> parts.len() == 0,
{
    if parts.len() == 1 {
        assert(parts[0].len() > 0);
    }
}

/// A slash between two paths parts them: the one lies below the other.
pub proof fn slash_goes_below(a: Seq<char>, b: Seq<char>)
    ensures
        tidied(a + seq!['/'] + b) == below(tidied(a), tidied(b)),
        is_plain_path(a) && is_plain_path(b) ==> is_plain_path(a + seq!['/'] + b),
{
    let sep = Separator::Slash;
    let whole = a + seq!['/'] + b;
    let (p, q) = (pieces(a, sep), pieces(b, sep));
    lemma_pieces_around_slash(a, b);
    lemma_filled_adds(p, q);
    lemma_filled_is_filled(p);
    lemma_filled_is_filled(q);
    lemma_joined_adds(filled(p), filled(q));
    if is_plain_path(a) && is_plain_path(b) {
        assert forall|i: int| 0 <= i < whole.len() implies plain_char(#[trigger] whole[i])
            || whole[i] == '/' by {
            if i < a.len() {
                assert(whole[i] == a[i]);
            } else if i > a.len() {
                assert(whole[i] == b[i - a.len() - 1]);
            }
        }
        assert forall|k: int| 0 <= k < pieces(whole, sep).len() implies {
            &&& #[trigger] pieces(whole, sep)[k] != seq!['.']
            &&& pieces(whole, sep)[k] != seq!['.', '.']
        } by {
            if k < p.len() {
                assert(pieces(whole, sep)[k] == p[k]);
            } else {
                assert(pieces(whole, sep)[k] == q[k - p.len()]);
            }
        }
    }
}

/// Slashes at the start of a path change nothing.
proof fn lemma_leading_slashes(text: Seq<char>)
    ensures
        tidied(without_leading(text, '/')) == tidied(text),
        is_plain_path(text) ==> is_plain_path(without_leading(text, '/')),
    decreases text.len(),
{
    if text.len() > 0 && text[0] == '/' {
        let sep = Separator::Slash;
        let none = Seq::<char>::empty();
        let rest = text.skip(1);
        assert(none + seq!['/'] + rest =~= text);
        slash_goes_below(none, rest);
        lemma_empty_path(none);
        lemma_pieces_around_slash(none, rest);
        if is_plain_path(text) {
            assert forall|i: int| 0 <= i < rest.len() implies plain_char(#[trigger] rest[i])
                || rest[i] == '/' by {
                assert(rest[i] == text[i + 1]);
            }
            assert forall|k: int| 0 <= k < pieces(rest, sep).len() implies {
                &&& #[trigger] pieces(rest, sep)[k] != seq!['.']
                &&& pieces(rest, sep)[k] != seq!['.', '.']
            } by {
                assert(pieces(rest, sep)[k] == pieces(text, sep)[k + pieces(none, sep).len()]);
            }
        }
        lemma_leading_slashes(rest);
    }
}

/// A slash at the end of a path changes nothing.
pub proof fn trailing_slash_changes_nothing(text: Seq<char>)
    ensures
        tidied(text.push('/')) == tidied(text),
        is_plain_path(text) ==> is_plain_path(text.push('/')),
{
    let none = Seq::<char>::empty();
    assert(text + seq!['/'] + none =~= text.push('/'));
    slash_goes_below(text, none);
    lemma_empty_path(none);
    assert(below(tidied(text), tidied(none)) =~= tidied(text));
}

proof fn lemma_joined_pieces(text: Seq<char>)
    ensures
        joined(pieces(text, Separator::Slash)) == text,
        pieces(text, Separator::Slash).len() > 0,
    decreases text.len(),
{
    let sep = Separator::Slash;
    let parts = pieces(text, sep);
    if text.len() == 0 {
        assert(joined(parts) =~= text);
    } else {
        let before = pieces(text.drop_last(), sep);
        lemma_joined_pieces(text.drop_last());
        if sep.is(text.last()) {
            assert(parts.drop_last() =~= before);
            assert(joined(parts) =~= text);
        } else {
            assert(parts.drop_last() =~= before.drop_last());
            assert(parts.last() == before.last().push(text.last()));
            if before.len() == 1 {
                assert(before[0] == before.last() && parts[0] == parts.last());
            } else {
                assert(joined(parts) =~= joined(before).push(text.last()));
            }
            assert(joined(parts) =~= text.drop_last().push(text.last()));
            assert(joined(parts) =~= text);
        }
    }
}

spec fn no_slash(part: Seq<char>) -> bool {
    forall|i: int| 0 <= i < part.len() ==> #[trigger] part[i] != '/'
}

/// The pieces hold no slash, and of a text whose characters are plain they are plain.
proof fn lemma_pieces_hold_no_slash(text: Seq<char>)
    ensures
        pieces(text, Separator::Slash).len() > 0,
        forall|k: int|
            0 <= k < pieces(text, Separator::Slash).len() ==> no_slash(
                #[trigger] pieces(text, Separator::Slash)[k],
            ),
        forall|k: int, i: int|
            0 <= k < pieces(text, Separator::Slash).len() && 0 <= i < pieces(
                text,
                Separator::Slash,
            )[k].len() ==> text.contains(#[trigger] pieces(text, Separator::Slash)[k][i]),
    decreases text.len(),
{
    let sep = Separator::Slash;
    if text.len() > 0 {
        let rest = text.drop_last();
        lemma_pieces_hold_no_slash(rest);
        let (before, parts) = (pieces(rest, sep), pieces(text, sep));
        assert forall|c: char| rest.contains(c) implies text.contains(c) by {
            let i = choose|i: int| 0 <= i < rest.len() && rest[i] == c;
            assert(text[i] == c);
        }
        assert(text[text.len() - 1] == text.last());
        assert forall|k: int| 0 <= k < parts.len() implies no_slash(#[trigger] parts[k]) by {
            if k < before.len() {
                assert(no_slash(before[k]));
            }
        }
        assert forall|k: int, i: int|
            0 <= k < parts.len() && 0 <= i < parts[k].len() implies text.contains(
            #[trigger] parts[k][i],
        ) by {
            if k < before.len() && i < before[k].len() {
                assert(rest.contains(before[k][i]));
            }
        }
    }
}

proof fn lemma_one_piece(part: Seq<char>)
    requires
        no_slash(part),
    ensures
        pieces(part, Separator::Slash) == seq![part],
    decreases part.len(),
{
    if part.len() > 0 {
        let rest = part.drop_last();
        assert forall|i: int| 0 <= i < rest.len() implies #[trigger] rest[i] != '/' by {
            assert(rest[i] == part[i]);
        }
        lemma_one_piece(rest);
        assert(part[part.len() - 1] != '/');
        assert(rest.push(part.last()) =~= part);
        assert(pieces(part, Separator::Slash) =~= seq![part]);
    } else {
        assert(part =~= Seq::empty());
    }
}

proof fn lemma_pieces_of_joined(parts: Seq<Seq<char>>)
    requires
        parts.len() > 0,
        forall|k: int| 0 <= k < parts.len() ==> no_slash(#[trigger] parts[k]),
    ensures
        pieces(joined(parts), Separator::Slash) == parts,
    decreases parts.len(),
{
    assert(no_slash(parts[parts.len() - 1]));
    lemma_one_piece(parts.last());
    if parts.len() == 1 {
        assert(seq![parts[0]] =~= parts);
    } else {
        let init = parts.drop_last();
        assert forall|k: int| 0 <= k < init.len() implies no_slash(#[trigger] init[k]) by {
            assert(init[k] == parts[k]);
        }
        lemma_pieces_of_joined(init);
        lemma_pieces_around_slash(joined(init), parts.last());
        assert(init + seq![parts.last()] =~= parts);
    }
}

/// What is left of parts without the empty ones was among them.
proof fn lemma_filled_was_there(parts: Seq<Seq<char>>)
    ensures
        forall|k: int|
            0 <= k < filled(parts).len() ==> parts.contains(#[trigger] filled(parts)[k]),
    decreases parts.len(),
{
    if parts.len() > 0 {
        let rest = parts.drop_last();
        lemma_filled_was_there(rest);
        assert forall|k: int| 0 <= k < filled(parts).len() implies parts.contains(
            #[trigger] filled(parts)[k],
        ) by {
            if k < filled(rest).len() {
                assert(rest.contains(filled(rest)[k]));
                let i = choose|i: int| 0 <= i < rest.len() && rest[i] == filled(rest)[k];
                assert(parts[i] == filled(parts)[k]);
            } else {
                assert(parts[parts.len() - 1] == filled(parts)[k]);
            }
        }
    }
}

proof fn lemma_joined_chars(parts: Seq<Seq<char>>)
    requires
        forall|k: int, i: int|
            0 <= k < parts.len() && 0 <= i < parts[k].len() ==> plain_char(#[trigger] parts[k][i]),
    ensures
        forall|i: int|
            0 <= i < joined(parts).len() ==> plain_char(#[trigger] joined(parts)[i])
                || joined(parts)[i] == '/',
    decreases parts.len(),
{
    if parts.len() > 1 {
        let init = parts.drop_last();
        assert forall|k: int, i: int| 0 <= k < init.len() && 0 <= i < init[k].len() implies
            plain_char(#[trigger] init[k][i]) by {
            assert(init[k][i] == parts[k][i]);
        }
        lemma_joined_chars(init);
        let (head, tail) = (joined(init), parts.last());
        assert forall|i: int| 0 <= i < joined(parts).len() implies plain_char(
            #[trigger] joined(parts)[i],
        ) || joined(parts)[i] == '/' by {
            if i < head.len() {
                assert(joined(parts)[i] == head[i]);
            } else if i > head.len() {
                assert(joined(parts)[i] == parts[parts.len() - 1][i - head.len() - 1]);
            }
        }
    } else if parts.len() == 1 {
        assert forall|i: int| 0 <= i < joined(parts).len() implies plain_char(
            #[trigger] joined(parts)[i],
        ) || joined(parts)[i] == '/' by {
            assert(joined(parts)[i] == parts[0][i]);
        }
    }
}

/// A tidy path stays as it is, and a plain path stays plain when it is tidied.
pub proof fn tidying_once_is_enough(text: Seq<char>)
    ensures
        tidied(tidied(text)) == tidied(text),
        is_plain_path(text) ==> is_plain_path(tidied(text)),
{
    let sep = Separator::Slash;
    let all = pieces(text, sep);
    let parts = filled(all);
    lemma_pieces_hold_no_slash(text);
    lemma_filled_was_there(all);
    lemma_filled_is_filled(all);
    if parts.len() == 0 {
        lemma_empty_path(tidied(text));
        assert(tidied(tidied(text)) =~= tidied(text));
    } else {
        assert forall|k: int| 0 <= k < parts.len() implies no_slash(#[trigger] parts[k]) by {
            assert(all.contains(parts[k]));
        }
        lemma_pieces_of_joined(parts);
        lemma_filled_is_filled(parts);
        if is_plain_path(text) {
            assert forall|k: int, i: int|
                0 <= k < parts.len() && 0 <= i < parts[k].len() implies plain_char(
                #[trigger] parts[k][i],
            ) by {
                assert(all.contains(parts[k]));
                let j = choose|j: int| 0 <= j < all.len() && all[j] == parts[k];
                assert(text.contains(all[j][i]));
                assert(no_slash(all[j]));
            }
            lemma_joined_chars(parts);
            assert forall|k: int| 0 <= k < pieces(tidied(text), sep).len() implies {
                &&& #[trigger] pieces(tidied(text), sep)[k] != seq!['.']
                &&& pieces(tidied(text), sep)[k] != seq!['.', '.']
            } by {
                assert(all.contains(parts[k]));
            }
        }
    }
}

/// A path without an empty part stays as it is.
pub proof fn tidy_paths_stay(text: Seq<char>)
    requires
        forall|k: int|
            0 <= k < pieces(text, Separator::Slash).len() ==> (#[trigger] pieces(
                text,
                Separator::Slash,
            )[k]).len() > 0,
    ensures
        tidied(text) == text,
{
    lemma_joined_pieces(text);
    lemma_filled_is_filled(pieces(text, Separator::Slash));
}

} // verus!
