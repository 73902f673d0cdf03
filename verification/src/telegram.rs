//! The credential-loading pipeline.
//!
//! A directory of raw session files, paired line by line with a proxy list,
//! becomes a list of [`Credentials`]: each file's format is classified from
//! its leading marker bytes, the matching converter (an external
//! collaborator) turns it into canonical session bytes, and the i-th file is
//! bound to the i-th proxy. Loading is fail-fast: a count mismatch, an
//! unrecognized format or a failed conversion aborts the whole load.

use vstd::prelude::*;

verus! {

/// A raw session file's source format.
#[derive(Clone, Copy, PartialEq, Eq, Structural, Debug)]
pub enum SessionSource {
    TDestkop,
    Pyrogram,
    Telethon,
}

/// Why a load was aborted. Any of these is fatal to the whole load: there
/// is no partial success at load time.
#[derive(Clone, Copy, PartialEq, Eq, Structural, Debug)]
pub enum LoadError {
    /// The session directory or the proxy file could not be read.
    UnreadableInput,
    /// The directory holds more session files than the proxy list has
    /// lines, or fewer.
    ProxyCountMismatch,
    /// A session file matches no known format marker.
    UnknownFormat,
    /// A session file was classified but its conversion to canonical bytes
    /// failed.
    ConversionFailed,
}

/// One loaded account: canonical session bytes, the format they came from,
/// and the proxy the account must use. Immutable once constructed and
/// consumed exactly once to establish a connection.
#[derive(Clone, Debug, PartialEq, Eq)]
pub struct Credentials {
    pub data: Vec<u8>,
    pub source: SessionSource,
    pub proxy: String,
}

/// A classified session file bound to its proxy, before conversion.
#[derive(Clone, Debug, PartialEq, Eq)]
pub struct CredentialPlan {
    pub source: SessionSource,
    pub proxy: String,
}

/// The magic that opens a desktop-client key file.
pub open spec fn spec_tdata_magic() -> Seq<u8> {
    seq![0x54u8, 0x44u8, 0x46u8, 0x24u8]
}

/// The header that opens any database-backed session file.
pub open spec fn spec_sqlite_magic() -> Seq<u8> {
    seq![
        0x53u8,
        0x51u8,
        0x4cu8,
        0x69u8,
        0x74u8,
        0x65u8,
        0x20u8,
        0x66u8,
        0x6fu8,
        0x72u8,
        0x6du8,
        0x61u8,
        0x74u8,
        0x20u8,
        0x33u8,
        0x00u8,
    ]
}

/// A column name that only the Telethon session schema declares.
pub open spec fn spec_telethon_marker() -> Seq<u8> {
    seq![
        0x73u8,
        0x65u8,
        0x72u8,
        0x76u8,
        0x65u8,
        0x72u8,
        0x5fu8,
        0x61u8,
        0x64u8,
        0x64u8,
        0x72u8,
        0x65u8,
        0x73u8,
        0x73u8,
    ]
}

/// A column name that only the Pyrogram session schema declares.
pub open spec fn spec_pyrogram_marker() -> Seq<u8> {
    seq![0x74u8, 0x65u8, 0x73u8, 0x74u8, 0x5fu8, 0x6du8, 0x6fu8, 0x64u8, 0x65u8]
}

/// `p` occurs in `b` starting at position `i`.
pub open spec fn spec_match_at(b: Seq<u8>, p: Seq<u8>, i: int) -> bool {
    0 <= i && i + p.len() <= b.len() && b.subrange(i, i + p.len() as int) == p
}

/// `b` begins with `p`.
pub open spec fn spec_starts_with(b: Seq<u8>, p: Seq<u8>) -> bool {
    spec_match_at(b, p, 0)
}

/// `p` occurs somewhere in `b`.
pub open spec fn spec_contains_marker(b: Seq<u8>, p: Seq<u8>) -> bool {
    exists|i: int| spec_match_at(b, p, i)
}

/// The format a raw session blob is classified as, if any: the desktop key
/// magic wins first; a database-backed file is told apart by which schema's
/// column name it carries.
pub open spec fn spec_detect(b: Seq<u8>) -> Option<SessionSource> {
    if spec_starts_with(b, spec_tdata_magic()) {
        Some(SessionSource::TDestkop)
    } else if spec_starts_with(b, spec_sqlite_magic()) && spec_contains_marker(
        b,
        spec_telethon_marker(),
    ) {
        Some(SessionSource::Telethon)
    } else if spec_starts_with(b, spec_sqlite_magic()) && spec_contains_marker(
        b,
        spec_pyrogram_marker(),
    ) {
        Some(SessionSource::Pyrogram)
    } else {
        None
    }
}

fn tdata_magic() -> (r: Vec<u8>)
    ensures
        r@ == spec_tdata_magic(),
{
    let mut v: Vec<u8> = Vec::new();
    v.push(0x54u8);
    v.push(0x44u8);
    v.push(0x46u8);
    v.push(0x24u8);
    proof {
        assert(v@ =~= spec_tdata_magic());
    }
    v
}

fn sqlite_magic() -> (r: Vec<u8>)
    ensures
        r@ == spec_sqlite_magic(),
{
    let mut v: Vec<u8> = Vec::new();
    v.push(0x53u8);
    v.push(0x51u8);
    v.push(0x4cu8);
    v.push(0x69u8);
    v.push(0x74u8);
    v.push(0x65u8);
    v.push(0x20u8);
    v.push(0x66u8);
    v.push(0x6fu8);
    v.push(0x72u8);
    v.push(0x6du8);
    v.push(0x61u8);
    v.push(0x74u8);
    v.push(0x20u8);
    v.push(0x33u8);
    v.push(0x00u8);
    proof {
        assert(v@ =~= spec_sqlite_magic());
    }
    v
}

fn telethon_marker() -> (r: Vec<u8>)
    ensures
        r@ == spec_telethon_marker(),
{
    let mut v: Vec<u8> = Vec::new();
    v.push(0x73u8);
    v.push(0x65u8);
    v.push(0x72u8);
    v.push(0x76u8);
    v.push(0x65u8);
    v.push(0x72u8);
    v.push(0x5fu8);
    v.push(0x61u8);
    v.push(0x64u8);
    v.push(0x64u8);
    v.push(0x72u8);
    v.push(0x65u8);
    v.push(0x73u8);
    v.push(0x73u8);
    proof {
        assert(v@ =~= spec_telethon_marker());
    }
    v
}

fn pyrogram_marker() -> (r: Vec<u8>)
    ensures
        r@ == spec_pyrogram_marker(),
{
    let mut v: Vec<u8> = Vec::new();
    v.push(0x74u8);
    v.push(0x65u8);
    v.push(0x73u8);
    v.push(0x74u8);
    v.push(0x5fu8);
    v.push(0x6du8);
    v.push(0x6fu8);
    v.push(0x64u8);
    v.push(0x65u8);
    proof {
        assert(v@ =~= spec_pyrogram_marker());
    }
    v
}

fn bytes_match_at(b: &Vec<u8>, p: &Vec<u8>, i: usize) -> (r: bool)
    requires
        i + p@.len() <= b@.len(),
    ensures
        r == spec_match_at(b@, p@, i as int),
{
    let m = p.len();
    let n = b.len();
    let mut j: usize = 0;
    while j < m
        invariant
            i + m <= n,
            n == b@.len(),
            m == p@.len(),
            j <= m,
            forall|k: int| 0 <= k < j ==> b@[i + k] == p@[k],
        decreases m - j,
    {
        if b[i + j] != p[j] {
            proof {
                if spec_match_at(b@, p@, i as int) {
                    assert(b@.subrange(i as int, i + m as int)[j as int] == b@[i + j]);
                }
            }
            return false;
        }
        j = j + 1;
    }
    proof {
        assert(b@.subrange(i as int, i + m as int) =~= p@);
    }
    true
}

fn contains_marker(b: &Vec<u8>, p: &Vec<u8>) -> (r: bool)
    ensures
        r == spec_contains_marker(b@, p@),
{
    let n = b.len();
    let m = p.len();
    if m > n {
        proof {
            assert forall|i: int| !spec_match_at(b@, p@, i) by {}
        }
        return false;
    }
    if m == 0 {
        proof {
            assert(b@.subrange(0, 0) =~= p@);
            assert(spec_match_at(b@, p@, 0));
        }
        return true;
    }
    let mut i: usize = 0;
    while i <= n - m
        invariant
            1 <= m <= n,
            n == b@.len(),
            m == p@.len(),
            i <= n - m + 1,
            forall|ii: int| 0 <= ii < i ==> !spec_match_at(b@, p@, ii),
        decreases n - m + 1 - i,
    {
        if bytes_match_at(b, p, i) {
            return true;
        }
        i = i + 1;
    }
    proof {
        assert forall|ii: int| !spec_match_at(b@, p@, ii) by {
            if 0 <= ii < i {
            }
        }
    }
    false
}

fn starts_with(b: &Vec<u8>, p: &Vec<u8>) -> (r: bool)
    ensures
        r == spec_starts_with(b@, p@),
{
    if p.len() > b.len() {
        return false;
    }
    bytes_match_at(b, p, 0)
}

/// Classifies a raw session blob by its marker bytes, or reports that the
/// format is unknown. A blob is recognized exactly when [`spec_detect`]
/// recognizes it.
pub fn detect_session_format(blob: &Vec<u8>) -> (r: Result<SessionSource, LoadError>)
    ensures
        match r {
            Ok(source) => spec_detect(blob@) == Some(source),
            Err(e) => spec_detect(blob@) is None && e == LoadError::UnknownFormat,
        },
{
    let tdf = tdata_magic();
    if starts_with(blob, &tdf) {
        return Ok(SessionSource::TDestkop);
    }
    let sqlite = sqlite_magic();
    if starts_with(blob, &sqlite) {
        let telethon = telethon_marker();
        if contains_marker(blob, &telethon) {
            return Ok(SessionSource::Telethon);
        }
        let pyrogram = pyrogram_marker();
        if contains_marker(blob, &pyrogram) {
            return Ok(SessionSource::Pyrogram);
        }
    }
    Err(LoadError::UnknownFormat)
}

/// The raw contents of each session file, in directory-iteration order.
pub open spec fn blob_views(blobs: Seq<Vec<u8>>) -> Seq<Seq<u8>> {
    Seq::new(blobs.len(), |i: int| blobs[i]@)
}

/// Each proxy line's text.
pub open spec fn line_views(lines: Seq<String>) -> Seq<Seq<char>> {
    Seq::new(lines.len(), |i: int| lines[i]@)
}

/// Each plan as (format, proxy text).
pub open spec fn plan_views(plans: Seq<CredentialPlan>) -> Seq<(SessionSource, Seq<char>)> {
    Seq::new(plans.len(), |i: int| (plans[i].source, plans[i].proxy@))
}

/// Each converted blob's bytes, where conversion succeeded.
pub open spec fn converted_views(conv: Seq<Option<Vec<u8>>>) -> Seq<Option<Seq<u8>>> {
    Seq::new(
        conv.len(),
        |i: int|
            match conv[i] {
                Some(d) => Some(d@),
                None => None,
            },
    )
}

/// Each credential as (canonical bytes, format, proxy text).
pub open spec fn cred_views(creds: Seq<Credentials>) -> Seq<(Seq<u8>, SessionSource, Seq<char>)> {
    Seq::new(creds.len(), |i: int| (creds[i].data@, creds[i].source, creds[i].proxy@))
}

/// The classification-and-pairing phase of a load: the i-th file is bound
/// to the i-th proxy line, a count mismatch or an unclassifiable file
/// aborts the load.
pub open spec fn spec_plan(blobs: Seq<Seq<u8>>, proxies: Seq<Seq<char>>) -> Result<
    Seq<(SessionSource, Seq<char>)>,
    LoadError,
> {
    if blobs.len() != proxies.len() {
        Err(LoadError::ProxyCountMismatch)
    } else if exists|i: int| 0 <= i < blobs.len() && spec_detect(blobs[i]) is None {
        Err(LoadError::UnknownFormat)
    } else {
        Ok(Seq::new(blobs.len(), |i: int| (spec_detect(blobs[i]).unwrap(), proxies[i])))
    }
}

/// The conversion-gathering phase of a load: the i-th plan takes the i-th
/// converted blob; any failed conversion aborts the load.
pub open spec fn spec_assemble(
    plans: Seq<(SessionSource, Seq<char>)>,
    converted: Seq<Option<Seq<u8>>>,
) -> Result<Seq<(Seq<u8>, SessionSource, Seq<char>)>, LoadError> {
    if exists|i: int| 0 <= i < converted.len() && converted[i] is None {
        Err(LoadError::ConversionFailed)
    } else {
        Ok(Seq::new(plans.len(), |i: int| (converted[i].unwrap(), plans[i].0, plans[i].1)))
    }
}

/// The whole load, given what the external converter returned for each
/// classified file.
pub open spec fn spec_load(
    blobs: Seq<Seq<u8>>,
    proxies: Seq<Seq<char>>,
    converted: Seq<Option<Seq<u8>>>,
) -> Result<Seq<(Seq<u8>, SessionSource, Seq<char>)>, LoadError> {
    match spec_plan(blobs, proxies) {
        Ok(plans) => spec_assemble(plans, converted),
        Err(e) => Err(e),
    }
}

/// Classifies every session file and binds the i-th file to the i-th proxy
/// line. Fails fast: a count mismatch aborts before any classification, and
/// the first unclassifiable file aborts the rest.
pub fn plan_credentials(blobs: &Vec<Vec<u8>>, proxies: &Vec<String>) -> (r: Result<
    Vec<CredentialPlan>,
    LoadError,
>)
    ensures
        match r {
            Ok(plans) => spec_plan(blob_views(blobs@), line_views(proxies@)) == Ok::<
                _,
                LoadError,
            >(plan_views(plans@)),
            Err(e) => spec_plan(blob_views(blobs@), line_views(proxies@)) == Err::<
                Seq<(SessionSource, Seq<char>)>,
                _,
            >(e),
        },
{
    let n = blobs.len();
    if n != proxies.len() {
        return Err(LoadError::ProxyCountMismatch);
    }
    let mut plans: Vec<CredentialPlan> = Vec::new();
    let mut i: usize = 0;
    while i < n
        invariant
            n == blobs@.len(),
            n == proxies@.len(),
            i <= n,
            plans@.len() == i,
            forall|k: int| 0 <= k < i ==> spec_detect(blobs@[k]@) is Some,
            forall|k: int|
                0 <= k < i ==> plans@[k].source == spec_detect(blobs@[k]@).unwrap()
                    && plans@[k].proxy@ == proxies@[k]@,
        decreases n - i,
    {
        match detect_session_format(&blobs[i]) {
            Ok(source) => {
                plans.push(CredentialPlan { source, proxy: proxies[i].clone() });
            },
            Err(e) => {
                proof {
                    assert(blob_views(blobs@)[i as int] == blobs@[i as int]@);
                }
                return Err(e);
            },
        }
        i = i + 1;
    }
    proof {
        assert(forall|k: int|
            0 <= k < n ==> #[trigger] blob_views(blobs@)[k] == blobs@[k]@ && line_views(proxies@)[k]
                == proxies@[k]@);
        let sp = spec_plan(blob_views(blobs@), line_views(proxies@));
        assert(sp is Ok);
        assert(plan_views(plans@) =~= sp.unwrap());
    }
    Ok(plans)
}

/// Joins every plan with the canonical bytes the converter returned for it,
/// index-paired. Fails fast on the first conversion failure: there is no
/// partial success at load time.
#[verifier::loop_isolation(false)]
pub fn assemble_credentials(plans: Vec<CredentialPlan>, converted: Vec<Option<Vec<u8>>>) -> (r:
    Result<Vec<Credentials>, LoadError>)
    requires
        plans@.len() == converted@.len(),
    ensures
        match r {
            Ok(creds) => spec_assemble(plan_views(plans@), converted_views(converted@)) == Ok::<
                _,
                LoadError,
            >(cred_views(creds@)),
            Err(e) => spec_assemble(plan_views(plans@), converted_views(converted@)) == Err::<
                Seq<(Seq<u8>, SessionSource, Seq<char>)>,
                _,
            >(e),
        },
{
    let ghost plans0 = plans@;
    let ghost conv0 = converted@;
    let mut rest_plans = plans;
    let mut rest_conv = converted;
    let mut creds: Vec<Credentials> = Vec::new();
    while rest_plans.len() > 0
        invariant
            rest_plans@.len() == rest_conv@.len(),
            creds@.len() + rest_plans@.len() == plans0.len(),
            plans0.len() == conv0.len(),
            rest_plans@ =~= plans0.skip(creds@.len() as int),
            rest_conv@ =~= conv0.skip(creds@.len() as int),
            forall|k: int| 0 <= k < creds@.len() ==> conv0[k] is Some,
            forall|k: int|
                0 <= k < creds@.len() ==> creds@[k].data@ == conv0[k].unwrap()@ && creds@[k].source
                    == plans0[k].source && creds@[k].proxy@ == plans0[k].proxy@,
        decreases rest_plans.len(),
    {
        let ghost k = creds@.len() as int;
        let plan = rest_plans.remove(0);
        let conv = rest_conv.remove(0);
        proof {
            assert(plan == plans0[k]);
            assert(conv == conv0[k]);
            assert(rest_plans@ =~= plans0.skip(k + 1));
            assert(rest_conv@ =~= conv0.skip(k + 1));
        }
        match conv {
            Some(data) => {
                creds.push(Credentials { data, source: plan.source, proxy: plan.proxy });
            },
            None => {
                proof {
                    let cv = converted_views(conv0);
                    assert(cv[k] is None);
                    assert(exists|i: int| 0 <= i < cv.len() && cv[i] is None);
                }
                return Err(LoadError::ConversionFailed);
            },
        }
    }
    proof {
        assert(forall|k: int|
            0 <= k < conv0.len() ==> #[trigger] converted_views(conv0)[k] == (match conv0[k] {
                Some(d) => Some(d@),
                None => None,
            }));
        let sa = spec_assemble(plan_views(plans0), converted_views(conv0));
        assert(sa is Ok);
        assert(cred_views(creds@) =~= sa.unwrap());
    }
    Ok(creds)
}

/// A character trimmed from the ends of the proxy file before it is split
/// into lines.
pub open spec fn is_line_ws(c: char) -> bool {
    c == ' ' || c == '\t' || c == '\r' || c == '\n'
}

/// `s` without its leading whitespace.
pub open spec fn spec_trim_start(s: Seq<char>) -> Seq<char>
    decreases s.len(),
{
    if s.len() > 0 && is_line_ws(s[0]) {
        spec_trim_start(s.skip(1))
    } else {
        s
    }
}

/// `s` without its trailing whitespace.
pub open spec fn spec_trim_end(s: Seq<char>) -> Seq<char>
    decreases s.len(),
{
    if s.len() > 0 && is_line_ws(s.last()) {
        spec_trim_end(s.drop_last())
    } else {
        s
    }
}

/// `s` without leading and trailing whitespace.
pub open spec fn spec_trim(s: Seq<char>) -> Seq<char> {
    spec_trim_end(spec_trim_start(s))
}

/// The position of the first line break in `s`, or its length if there is
/// none.
pub open spec fn first_break(s: Seq<char>) -> nat
    decreases s.len(),
{
    if s.len() == 0 {
        0
    } else if s[0] == '\n' {
        0
    } else {
        1 + first_break(s.skip(1))
    }
}

/// The pieces of `s` between its line breaks, in order; empty text is one
/// empty line.
pub open spec fn spec_split_lines(s: Seq<char>) -> Seq<Seq<char>>
    decreases s.len(),
{
    let b = first_break(s) as int;
    if b >= s.len() {
        seq![s]
    } else {
        seq![s.take(b)] + spec_split_lines(s.skip(b + 1))
    }
}

proof fn lemma_first_break_at(s: Seq<char>, i: int)
    requires
        0 <= i <= s.len(),
        forall|k: int| 0 <= k < i ==> s[k] != '\n',
        i < s.len() ==> s[i] == '\n',
    ensures
        first_break(s) == i,
    decreases i,
{
    if i > 0 {
        lemma_first_break_at(s.skip(1), i - 1);
    }
}

proof fn lemma_split_no_break(a: Seq<char>)
    requires
        forall|k: int| 0 <= k < a.len() ==> a[k] != '\n',
    ensures
        spec_split_lines(a) == seq![a],
{
    lemma_first_break_at(a, a.len() as int);
}

proof fn lemma_split_around_break(a: Seq<char>, rest: Seq<char>)
    requires
        forall|k: int| 0 <= k < a.len() ==> a[k] != '\n',
    ensures
        spec_split_lines(a + seq!['\n'] + rest) == seq![a] + spec_split_lines(rest),
{
    let u = a + seq!['\n'] + rest;
    assert forall|k: int| 0 <= k < a.len() implies u[k] != '\n' by {
        assert(u[k] == a[k]);
    }
    assert(u[a.len() as int] == '\n');
    lemma_first_break_at(u, a.len() as int);
    assert(u.take(a.len() as int) =~= a);
    assert(u.skip(a.len() as int + 1) =~= rest);
}

proof fn lemma_trim_start_skip(s: Seq<char>, i: int)
    requires
        0 <= i <= s.len(),
        forall|k: int| 0 <= k < i ==> is_line_ws(s[k]),
    ensures
        spec_trim_start(s) == spec_trim_start(s.skip(i)),
    decreases i,
{
    if i > 0 {
        lemma_trim_start_skip(s.skip(1), i - 1);
        assert(s.skip(1).skip(i - 1) =~= s.skip(i));
    } else {
        assert(s.skip(0) =~= s);
    }
}

proof fn lemma_trim_end_take(s: Seq<char>, i: int)
    requires
        0 <= i <= s.len(),
        forall|k: int| i <= k < s.len() ==> is_line_ws(s[k]),
    ensures
        spec_trim_end(s) == spec_trim_end(s.take(i)),
    decreases s.len() - i,
{
    if i < s.len() {
        assert(is_line_ws(s.last()));
        lemma_trim_end_take(s.drop_last(), i);
        assert(s.drop_last().take(i) =~= s.take(i));
    } else {
        assert(s.take(i) =~= s);
    }
}

fn is_ws_char(c: char) -> (r: bool)
    ensures
        r == is_line_ws(c),
{
    c == ' ' || c == '\t' || c == '\r' || c == '\n'
}

/// Splits the proxy file's text into one address per line: the text is
/// trimmed at both ends, then cut at every line break, exactly as
/// [`spec_split_lines`] of [`spec_trim`] describes.
#[verifier::loop_isolation(false)]
pub fn parse_proxies(text: &str) -> (r: Vec<String>)
    ensures
        line_views(r@) == spec_split_lines(spec_trim(text@)),
{
    let n = text.unicode_len();
    let mut start: usize = 0;
    while start < n && is_ws_char(text.get_char(start))
        invariant
            start <= n,
            forall|k: int| 0 <= k < start ==> is_line_ws(text@[k]),
        decreases n - start,
    {
        start = start + 1;
    }
    let mut end: usize = n;
    while end > start && is_ws_char(text.get_char(end - 1))
        invariant
            start <= end <= n,
            forall|k: int| end <= k < n ==> is_line_ws(text@[k]),
        decreases end,
    {
        end = end - 1;
    }
    let ghost t0 = text@.skip(start as int);
    let ghost t = text@.subrange(start as int, end as int);
    proof {
        lemma_trim_start_skip(text@, start as int);
        assert(spec_trim_start(t0) == t0);
        lemma_trim_end_take(t0, end - start);
        assert(t0.take(end - start) =~= t);
        assert(spec_trim_end(t) == t);
        assert(spec_trim(text@) == t);
    }
    let mut out: Vec<String> = Vec::new();
    let mut ls: usize = start;
    let mut j: usize = start;
    proof {
        assert(line_views(out@) =~= Seq::<Seq<char>>::empty());
        assert(line_views(out@) + spec_split_lines(t) =~= spec_split_lines(t));
    }
    while j < end
        invariant
            start <= ls <= j <= end,
            spec_split_lines(t) == line_views(out@) + spec_split_lines(
                text@.subrange(ls as int, end as int),
            ),
            forall|k: int| ls <= k < j ==> text@[k] != '\n',
        decreases end - j,
    {
        let c = text.get_char(j);
        if c == '\n' {
            let line = text.substring_char(ls, j).to_owned();
            let ghost old_out = out@;
            out.push(line);
            proof {
                let a = text@.subrange(ls as int, j as int);
                let rest = text@.subrange(j as int + 1, end as int);
                assert forall|k: int| 0 <= k < a.len() implies a[k] != '\n' by {
                    assert(a[k] == text@[ls + k]);
                }
                assert(text@.subrange(ls as int, end as int) =~= a + seq!['\n'] + rest);
                lemma_split_around_break(a, rest);
                assert(line_views(out@) =~= line_views(old_out) + seq![a]);
                assert(line_views(old_out) + (seq![a] + spec_split_lines(rest)) =~= (line_views(
                    old_out,
                ) + seq![a]) + spec_split_lines(rest));
            }
            ls = j + 1;
        }
        j = j + 1;
    }
    let line = text.substring_char(ls, end).to_owned();
    let ghost old_out = out@;
    out.push(line);
    proof {
        let a = text@.subrange(ls as int, end as int);
        assert forall|k: int| 0 <= k < a.len() implies a[k] != '\n' by {
            assert(a[k] == text@[ls + k]);
        }
        lemma_split_no_break(a);
        assert(line_views(out@) =~= line_views(old_out) + seq![a]);
    }
    out
}

/// The application identity a remote connection authenticates with,
/// constructed once at startup from the process configuration.
#[derive(Clone, Debug)]
pub struct AppCredentials {
    pub api_id: i32,
    pub api_hash: String,
}

/// Picks the application identity a session connects with: a session that
/// came from a desktop key file carries the desktop client's identity,
/// every other format uses the configured one.
pub fn api_credentials_for(source: SessionSource, configured: &AppCredentials) -> (r:
    AppCredentials)
    ensures
        source is TDestkop ==> r.api_id == 2040 && r.api_hash@
            == "b18441a1ff607e10a989891a5462e627"@,
        !(source is TDestkop) ==> r.api_id == configured.api_id && r.api_hash@
            == configured.api_hash@,
{
    match source {
        SessionSource::TDestkop => AppCredentials {
            api_id: 2040,
            api_hash: String::from_str("b18441a1ff607e10a989891a5462e627"),
        },
        SessionSource::Pyrogram | SessionSource::Telethon => AppCredentials {
            api_id: configured.api_id,
            api_hash: configured.api_hash.clone(),
        },
    }
}

/// A dialed phone number with every plus sign and space removed, other
/// characters kept in order.
pub open spec fn spec_normalize_phone(s: Seq<char>) -> Seq<char>
    decreases s.len(),
{
    if s.len() == 0 {
        Seq::empty()
    } else {
        let rest = spec_normalize_phone(s.drop_last());
        if s.last() == '+' || s.last() == ' ' {
            rest
        } else {
            rest.push(s.last())
        }
    }
}

/// Strips plus signs and spaces from a dialed phone number, as the
/// sign-in flow expects it.
#[verifier::loop_isolation(false)]
pub fn normalize_phone(phone: &str) -> (r: String)
    ensures
        r@ == spec_normalize_phone(phone@),
{
    let n = phone.unicode_len();
    let mut out = String::new();
    let mut i: usize = 0;
    proof {
        assert(phone@.take(0) =~= Seq::<char>::empty());
    }
    while i < n
        invariant
            i <= n,
            out@ == spec_normalize_phone(phone@.take(i as int)),
        decreases n - i,
    {
        let c = phone.get_char(i);
        let ghost pre = out@;
        if c != '+' && c != ' ' {
            out.append(phone.substring_char(i, i + 1));
            proof {
                assert(out@ =~= pre.push(phone@[i as int]));
            }
        }
        proof {
            assert(phone@.take(i + 1).drop_last() =~= phone@.take(i as int));
            assert(phone@.take(i + 1).last() == phone@[i as int]);
        }
        i = i + 1;
    }
    proof {
        assert(phone@.take(n as int) =~= phone@);
    }
    out
}

/// The fragment marker that precedes the web-app payload in the URL the
/// remote client returns for an app web-view request.
pub open spec fn spec_marker() -> Seq<char> {
    seq!['#', 't', 'g', 'W', 'e', 'b', 'A', 'p', 'p', 'D', 'a', 't', 'a', '=']
}

/// The marker occurs in `u` starting at position `i`.
pub open spec fn spec_marker_at(u: Seq<char>, i: int) -> bool {
    0 <= i && i + spec_marker().len() <= u.len() && u.subrange(i, i + spec_marker().len() as int)
        == spec_marker()
}

/// The marker occurs somewhere in `u`.
pub open spec fn spec_has_marker(u: Seq<char>) -> bool {
    exists|i: int| spec_marker_at(u, i)
}

/// The start of the last marker occurrence in `u`.
pub open spec fn spec_last_marker(u: Seq<char>) -> int {
    choose|i: int| spec_marker_at(u, i) && (forall|k: int| k > i ==> !spec_marker_at(u, k))
}

/// The still-encoded payload of `u`: what follows the last marker
/// occurrence, or all of `u` when the marker is absent.
pub open spec fn spec_payload(u: Seq<char>) -> Seq<char> {
    if spec_has_marker(u) {
        u.skip(spec_last_marker(u) + spec_marker().len() as int)
    } else {
        u
    }
}

fn marker_chars() -> (r: Vec<char>)
    ensures
        r@ == spec_marker(),
{
    let mut v: Vec<char> = Vec::new();
    v.push('#');
    v.push('t');
    v.push('g');
    v.push('W');
    v.push('e');
    v.push('b');
    v.push('A');
    v.push('p');
    v.push('p');
    v.push('D');
    v.push('a');
    v.push('t');
    v.push('a');
    v.push('=');
    proof {
        assert(v@ =~= spec_marker());
    }
    v
}

fn str_match_at(u: &str, p: &Vec<char>, i: usize) -> (r: bool)
    requires
        i + p@.len() <= u@.len(),
    ensures
        r == (u@.subrange(i as int, i + p@.len() as int) == p@),
{
    let m = p.len();
    let n = u.unicode_len();
    let mut j: usize = 0;
    while j < m
        invariant
            i + m <= n,
            n == u@.len(),
            m == p@.len(),
            j <= m,
            forall|k: int| 0 <= k < j ==> u@[i + k] == p@[k],
        decreases m - j,
    {
        if u.get_char(i + j) != p[j] {
            proof {
                if u@.subrange(i as int, i + m as int) == p@ {
                    assert(u@.subrange(i as int, i + m as int)[j as int] == u@[i + j]);
                }
            }
            return false;
        }
        j = j + 1;
    }
    proof {
        assert(u@.subrange(i as int, i + m as int) =~= p@);
    }
    true
}

proof fn lemma_last_marker_is(u: Seq<char>, i: int)
    requires
        spec_marker_at(u, i),
        forall|k: int| k > i ==> !spec_marker_at(u, k),
    ensures
        spec_has_marker(u),
        spec_last_marker(u) == i,
{
    let c = spec_last_marker(u);
    assert(spec_marker_at(u, c) && (forall|k: int| k > c ==> !spec_marker_at(u, k))) by {
        assert(spec_marker_at(u, i) && (forall|k: int| k > i ==> !spec_marker_at(u, k)));
    }
    if c < i {
        assert(!spec_marker_at(u, i));
    }
    if c > i {
        assert(!spec_marker_at(u, c));
    }
}

/// The text after the last payload-marker occurrence in `url`, still
/// percent-encoded; the whole of `url` when the marker is absent.
#[verifier::loop_isolation(false)]
pub fn payload_after_marker(url: &str) -> (r: String)
    ensures
        r@ == spec_payload(url@),
{
    let n = url.unicode_len();
    let m = marker_chars();
    let mlen = m.len();
    if n < mlen {
        proof {
            assert forall|i: int| !spec_marker_at(url@, i) by {}
        }
        return url.to_owned();
    }
    let mut i: usize = n - mlen + 1;
    while i > 0
        invariant
            i <= n - mlen + 1,
            forall|k: int| k >= i ==> !spec_marker_at(url@, k),
        decreases i,
    {
        let cand = i - 1;
        if str_match_at(url, &m, cand) {
            let payload = url.substring_char(cand + mlen, n).to_owned();
            proof {
                lemma_last_marker_is(url@, cand as int);
            }
            return payload;
        }
        i = i - 1;
    }
    proof {
        assert forall|k: int| !spec_marker_at(url@, k) by {}
    }
    url.to_owned()
}

/// What percent-decoding yields for a given text, or nothing when the
/// decoded bytes are not valid text. Decoding is a pure function of the
/// text alone.
pub uninterp spec fn percent_decoded(s: Seq<char>) -> Option<Seq<char>>;

/// Relies on urlencoding::decode: percent-decoding is a pure function of
/// the input text, it fails only when the decoded bytes are not valid
/// text, and a text without any percent sign comes back unchanged.
#[verifier::external_body]
fn percent_decode(s: &str) -> (r: Option<String>)
    ensures
        r is Some ==> percent_decoded(s@) == Some(r.unwrap()@),
        r is None ==> percent_decoded(s@) is None,
        !s@.contains('%') ==> r is Some && r.unwrap()@ == s@,
{
    match urlencoding::decode(s) {
        Ok(c) => Some(c.into_owned()),
        Err(_) => None,
    }
}

/// Extracts the web-app payload from the URL the remote client returned:
/// the percent-decoded text after the last payload marker, or the decoded
/// URL itself when the marker is absent. Yields nothing only when the
/// decoded bytes are not valid text.
pub fn extract_init_data(url: &str) -> (r: Option<String>)
    ensures
        match r {
            Some(t) => percent_decoded(spec_payload(url@)) == Some(t@),
            None => percent_decoded(spec_payload(url@)) is None,
        },
{
    let payload = payload_after_marker(url);
    percent_decode(payload.as_str())
}

/// Loading is idempotent: two loads over unchanged inputs — the same files
/// in the same directory order, the same proxy list, and the converter (a
/// pure function of each file) returning the same canonical bytes — produce
/// equal credential lists, or fail with the same error.
pub proof fn lemma_load_idempotent(
    blobs: Seq<Seq<u8>>,
    proxies: Seq<Seq<char>>,
    converted: Seq<Option<Seq<u8>>>,
    first: Result<Seq<(Seq<u8>, SessionSource, Seq<char>)>, LoadError>,
    second: Result<Seq<(Seq<u8>, SessionSource, Seq<char>)>, LoadError>,
)
    requires
        first == spec_load(blobs, proxies, converted),
        second == spec_load(blobs, proxies, converted),
    ensures
        first == second,
{
}

} // verus!
