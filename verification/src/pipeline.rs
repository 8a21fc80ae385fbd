//! The decisions of a conversion run: what each page task does next, how
//! finished pages are collected in page order, and how the run ends.
use vstd::prelude::*;
use sha2::Digest as _;
use crate::markdown::{clean_markdown, spec_clean_markdown};
use crate::text::{chars_of, push_chars, push_str, string_from_chars, to_string};
use std::collections::BTreeMap;
use vstd::std_specs::btree::{axiom_increasing_seq_meaning, increasing_seq, key_obeys_cmp_spec};
use vstd::std_specs::iter::IteratorSpec;

verus! {

broadcast use vstd::std_specs::btree::group_btree_axioms;

// ---------------------------------------------------------------- page tasks

/// How the task of one page ended.
pub enum PageOutcome {
    /// The page's Markdown is known.
    Completed { page_number: u32, markdown: String },
    /// The page was not processed because a shutdown was requested.
    Skipped { page_number: u32 },
}

/// Where the task of one page stands.
pub enum PageState {
    /// Not started: the shutdown flag is read first.
    Pending { page: u32 },
    /// The page is to be rendered, encoded and hashed.
    Rendering { page: u32 },
    /// The cache is to be asked for the page's hash.
    LookingUp { page: u32, hash: String },
    /// A request permit is to be acquired, then the shutdown flag read.
    Waiting { page: u32, hash: String },
    /// The OCR server is to be asked.
    Requesting { page: u32, hash: String },
    /// The cleaned Markdown is to be stored in the cache.
    Saving { page: u32, hash: String, markdown: String },
    /// The task is over.
    Done(PageOutcome),
}

/// What happened since the last step of a page task.
pub enum PageEvent {
    /// The shutdown flag was read (in `Pending`, or in `Waiting` once the
    /// permit was granted).
    ShutdownChecked { shutdown: bool },
    /// The page was rendered and encoded; this is the hash of its WebP.
    Encoded { hash: String },
    /// The cache answered for the page's hash.
    CacheAnswered { cached: Option<String> },
    /// The OCR server answered with this raw Markdown.
    OcrAnswered { markdown: String },
    /// The Markdown was stored in the cache.
    Saved,
}

/// Whether `e` is an event that can happen in state `s`.
pub open spec fn event_fits(s: PageState, e: PageEvent) -> bool {
    match s {
        PageState::Pending { .. } => e is ShutdownChecked,
        PageState::Rendering { .. } => e is Encoded,
        PageState::LookingUp { .. } => e is CacheAnswered,
        PageState::Waiting { .. } => e is ShutdownChecked,
        PageState::Requesting { .. } => e is OcrAnswered,
        PageState::Saving { .. } => e is Saved,
        PageState::Done(_) => false,
    }
}

/// The transition of a page task from `s` on `e` to `t`:
/// a shutdown seen before the start or after the permit ends the task as
/// skipped; a cache hit ends it with the cached Markdown; an OCR answer is
/// cleaned and stored; the stored Markdown is what the task reports.
pub open spec fn page_transition(s: PageState, e: PageEvent, t: PageState) -> bool {
    match (s, e) {
        (PageState::Pending { page }, PageEvent::ShutdownChecked { shutdown }) => if shutdown {
            t == PageState::Done(PageOutcome::Skipped { page_number: page })
        } else {
            t == PageState::Rendering { page }
        },
        (PageState::Rendering { page }, PageEvent::Encoded { hash }) => t == PageState::LookingUp {
            page,
            hash,
        },
        (PageState::LookingUp { page, hash }, PageEvent::CacheAnswered { cached }) => match cached {
            Some(markdown) => t == PageState::Done(
                PageOutcome::Completed { page_number: page, markdown },
            ),
            None => t == PageState::Waiting { page, hash },
        },
        (PageState::Waiting { page, hash }, PageEvent::ShutdownChecked { shutdown }) => if shutdown {
            t == PageState::Done(PageOutcome::Skipped { page_number: page })
        } else {
            t == PageState::Requesting { page, hash }
        },
        (PageState::Requesting { page, hash }, PageEvent::OcrAnswered { markdown }) => t matches PageState::Saving {
            page: p,
            hash: h,
            markdown: m,
        } && p == page && h == hash && m@ == spec_clean_markdown(markdown@),
        (PageState::Saving { page, hash, markdown }, PageEvent::Saved) => t == PageState::Done(
            PageOutcome::Completed { page_number: page, markdown },
        ),
        _ => false,
    }
}

/// The first state of the task of page `page`.
pub fn start_page(page: u32) -> (s: PageState)
    ensures
        s == (PageState::Pending { page }),
{
    PageState::Pending { page }
}

/// The next state of a page task (see [`page_transition`]).
pub fn advance_page(s: PageState, e: PageEvent) -> (t: PageState)
    requires
        event_fits(s, e),
    ensures
        page_transition(s, e, t),
{
    match (s, e) {
        (PageState::Pending { page }, PageEvent::ShutdownChecked { shutdown }) => if shutdown {
            PageState::Done(PageOutcome::Skipped { page_number: page })
        } else {
            PageState::Rendering { page }
        },
        (PageState::Rendering { page }, PageEvent::Encoded { hash }) => PageState::LookingUp {
            page,
            hash,
        },
        (PageState::LookingUp { page, hash }, PageEvent::CacheAnswered { cached }) => match cached {
            Some(markdown) => PageState::Done(PageOutcome::Completed { page_number: page, markdown }),
            None => PageState::Waiting { page, hash },
        },
        (PageState::Waiting { page, hash }, PageEvent::ShutdownChecked { shutdown }) => if shutdown {
            PageState::Done(PageOutcome::Skipped { page_number: page })
        } else {
            PageState::Requesting { page, hash }
        },
        (PageState::Requesting { page, hash }, PageEvent::OcrAnswered { markdown }) => {
            let cleaned = clean_markdown(markdown.as_str());
            PageState::Saving { page, hash, markdown: cleaned }
        },
        (PageState::Saving { page, hash, markdown }, PageEvent::Saved) => PageState::Done(
            PageOutcome::Completed { page_number: page, markdown },
        ),
        (s, _) => s,
    }
}

/// No OCR request is made once a shutdown was seen: a task only comes to
/// ask the server from `Waiting`, on reading the flag unset after its
/// permit was granted.
pub proof fn law_request_only_without_shutdown(s: PageState, e: PageEvent, t: PageState)
    requires
        page_transition(s, e, t),
        t is Requesting,
    ensures
        s is Waiting,
        e == (PageEvent::ShutdownChecked { shutdown: false }),
{
}

/// A shutdown seen before the start or after the permit ends the task as
/// skipped, without rendering or asking the server.
pub proof fn law_shutdown_skips(s: PageState, t: PageState)
    requires
        s is Pending || s is Waiting,
        page_transition(s, PageEvent::ShutdownChecked { shutdown: true }, t),
    ensures
        t is Done && t->0 is Skipped,
{
}

/// A cache hit ends the task with the cached Markdown: no OCR request is
/// made for the page.
pub proof fn law_cache_hit_skips_request(page: u32, hash: String, markdown: String, t: PageState)
    requires
        page_transition(
            PageState::LookingUp { page, hash },
            PageEvent::CacheAnswered { cached: Some(markdown) },
            t,
        ),
    ensures
        t == PageState::Done(PageOutcome::Completed { page_number: page, markdown }),
{
}

/// What the cache stores for a page is what the page reports: the OCR
/// answer, cleaned.
pub proof fn law_saved_markdown_is_reported(
    page: u32,
    hash: String,
    raw: String,
    saving: PageState,
    done: PageState,
)
    requires
        page_transition(PageState::Requesting { page, hash }, PageEvent::OcrAnswered { markdown: raw }, saving),
        page_transition(saving, PageEvent::Saved, done),
    ensures
        done matches PageState::Done(PageOutcome::Completed { page_number, markdown })
            && page_number == page && markdown@ == spec_clean_markdown(raw@),
{
}


/// The page a task state belongs to, and whether it is not a skip: every
/// state but a skipped end.
pub open spec fn state_on_page(s: PageState, page: u32) -> bool {
    match s {
        PageState::Pending { page: p } => p == page,
        PageState::Rendering { page: p } => p == page,
        PageState::LookingUp { page: p, .. } => p == page,
        PageState::Waiting { page: p, .. } => p == page,
        PageState::Requesting { page: p, .. } => p == page,
        PageState::Saving { page: p, .. } => p == page,
        PageState::Done(PageOutcome::Completed { page_number, .. }) => page_number == page,
        PageState::Done(PageOutcome::Skipped { .. }) => false,
    }
}

/// `states` is a run of the task of page `page` on `events`: it starts
/// pending and each state follows from the one before on its event.
pub open spec fn task_run(page: u32, states: Seq<PageState>, events: Seq<PageEvent>) -> bool {
    &&& states.len() == events.len() + 1
    &&& states[0] == (PageState::Pending { page })
    &&& forall|i: int| 0 <= i < events.len() ==> page_transition(#[trigger] states[i], events[i], states[i + 1])
}

proof fn lemma_task_run_on_page(page: u32, states: Seq<PageState>, events: Seq<PageEvent>, i: int)
    requires
        task_run(page, states, events),
        forall|j: int| 0 <= j < events.len() ==> #[trigger] events[j] != (PageEvent::ShutdownChecked { shutdown: true }),
        0 <= i < states.len(),
    ensures
        state_on_page(states[i], page),
    decreases i,
{
    if i > 0 {
        lemma_task_run_on_page(page, states, events, i - 1);
        assert(page_transition(states[i - 1], events[i - 1], states[i]));
        assert(events[i - 1] != (PageEvent::ShutdownChecked { shutdown: true }));
    }
}

/// A page task that never reads the shutdown flag set ends with its page
/// completed: without a shutdown, every page that finishes is written.
pub proof fn law_task_without_shutdown_completes(page: u32, states: Seq<PageState>, events: Seq<PageEvent>)
    requires
        task_run(page, states, events),
        forall|j: int| 0 <= j < events.len() ==> #[trigger] events[j] != (PageEvent::ShutdownChecked { shutdown: true }),
        states.last() is Done,
    ensures
        states.last() matches PageState::Done(PageOutcome::Completed { page_number, .. }) && page_number == page,
{
    lemma_task_run_on_page(page, states, events, states.len() - 1);
}

// ---------------------------------------------------------------- page hashes

/// What SHA-256 gives for `bytes`.
pub uninterp spec fn spec_sha256(bytes: Seq<u8>) -> Seq<u8>;

/// `sha2::Sha256::digest`: the SHA-256 digest of `bytes`, which has 32
/// bytes. The digest itself is only named here.
#[verifier::external_body]
fn sha256(bytes: &[u8]) -> (r: Vec<u8>)
    ensures
        r@ == spec_sha256(bytes@),
        r@.len() == 32,
{
    sha2::Sha256::digest(bytes).to_vec()
}

/// The lower-case hexadecimal digit of `v < 16`.
pub open spec fn hex_digit(v: int) -> char {
    if v < 10 {
        (48 + v) as char
    } else {
        (87 + v) as char
    }
}

/// Two lower-case hexadecimal digits per byte, high nibble first.
pub open spec fn hex_lower(b: Seq<u8>) -> Seq<char>
    decreases b.len(),
{
    if b.len() == 0 {
        seq![]
    } else {
        hex_lower(b.drop_last()) + seq![hex_digit(b.last() as int / 16), hex_digit(b.last() as int % 16)]
    }
}

fn hex_char(v: u8) -> (c: char)
    requires
        v < 16,
    ensures
        c == hex_digit(v as int),
{
    if v < 10 {
        (48u8 + v) as char
    } else {
        (87u8 + v) as char
    }
}

/// The lower-case hexadecimal form of `bytes`.
pub fn to_hex_lower(bytes: &[u8]) -> (r: String)
    ensures
        r@ == hex_lower(bytes@),
{
    let mut out: Vec<char> = Vec::new();
    let mut i: usize = 0;
    while i < bytes.len()
        invariant
            i <= bytes@.len(),
            out@ == hex_lower(bytes@.take(i as int)),
        decreases bytes@.len() - i,
    {
        let b = bytes[i];
        out.push(hex_char(b / 16));
        out.push(hex_char(b % 16));
        proof {
            assert(bytes@.take(i + 1).drop_last() =~= bytes@.take(i as int));
            assert(out@ =~= hex_lower(bytes@.take(i + 1)));
        }
        i = i + 1;
    }
    proof {
        assert(bytes@.take(i as int) =~= bytes@);
    }
    string_from_chars(out.as_slice())
}

/// The cache key of a page: the lower-case hexadecimal SHA-256 digest of
/// its WebP bytes.
pub fn hash_page(bytes: &[u8]) -> (r: String)
    ensures
        r@ == hex_lower(spec_sha256(bytes@)),
        r@.len() == 64,
{
    let digest = sha256(bytes);
    let r = to_hex_lower(digest.as_slice());
    proof {
        lemma_hex_lower_len(digest@);
    }
    r
}

proof fn lemma_hex_lower_len(b: Seq<u8>)
    ensures
        hex_lower(b).len() == 2 * b.len(),
    decreases b.len(),
{
    if b.len() > 0 {
        lemma_hex_lower_len(b.drop_last());
    }
}

// ---------------------------------------------------------------- partial output

/// What `Path::file_name` gives for `path`: its last component, unless
/// that is `..` or there is none.
pub uninterp spec fn spec_path_file_name(path: Seq<char>) -> Option<Seq<char>>;

/// What `Path::with_file_name` gives for `path` and `name`.
pub uninterp spec fn spec_path_with_file_name(path: Seq<char>, name: Seq<char>) -> Seq<char>;

/// `Path::file_name` of a UTF-8 path. The result is only named here.
#[verifier::external_body]
fn path_file_name(path: &str) -> (r: Option<String>)
    ensures
        match r {
            Some(n) => spec_path_file_name(path@) == Some(n@),
            None => spec_path_file_name(path@) is None,
        },
{
    std::path::Path::new(path).file_name().map(|name| name.to_string_lossy().into_owned())
}

/// `Path::with_file_name` of UTF-8 paths. The result is only named here.
#[verifier::external_body]
fn path_with_file_name(path: &str, name: &str) -> (r: String)
    ensures
        r@ == spec_path_with_file_name(path@, name@),
{
    std::path::Path::new(path).with_file_name(name).to_string_lossy().into_owned()
}

/// The index of the last `c` in `s`.
pub open spec fn last_index_of(s: Seq<char>, c: char) -> Option<nat>
    decreases s.len(),
{
    if s.len() == 0 {
        None
    } else if s.last() == c {
        Some((s.len() - 1) as nat)
    } else {
        last_index_of(s.drop_last(), c)
    }
}

/// The file name of the partial output: `~partial` put before the last
/// extension, or `~partial.md` appended when there is no `'.'`.
pub open spec fn spec_partial_file_name(name: Seq<char>) -> Seq<char> {
    match last_index_of(name, '.') {
        Some(i) => name.take(i as int) + "~partial."@ + name.skip(i as int + 1),
        None => name + "~partial.md"@,
    }
}

proof fn lemma_last_index_after(s: Seq<char>, e: Seq<char>, c: char)
    requires
        !e.contains(c),
    ensures
        last_index_of(s.push(c) + e, c) == Some(s.len()),
    decreases e.len(),
{
    if e.len() == 0 {
        assert(s.push(c) + e =~= s.push(c));
    } else {
        let e2 = e.drop_last();
        assert(!e2.contains(c)) by {
            if e2.contains(c) {
                let i = choose|i: int| 0 <= i < e2.len() && e2[i] == c;
                assert(e[i] == c);
            }
        }
        lemma_last_index_after(s, e2, c);
        assert((s.push(c) + e).drop_last() =~= s.push(c) + e2);
        assert((s.push(c) + e).last() == e.last());
        assert(e[e.len() - 1] != c);
    }
}

proof fn lemma_last_index_none(s: Seq<char>, c: char)
    requires
        !s.contains(c),
    ensures
        last_index_of(s, c) is None,
    decreases s.len(),
{
    if s.len() > 0 {
        let s2 = s.drop_last();
        assert(!s2.contains(c)) by {
            if s2.contains(c) {
                let i = choose|i: int| 0 <= i < s2.len() && s2[i] == c;
                assert(s[i] == c);
            }
        }
        assert(s[s.len() - 1] != c);
        lemma_last_index_none(s2, c);
    }
}

/// The partial file name keeps the stem and the extension: `~partial` goes
/// before the text after the last `'.'` (`stem.ext` becomes
/// `stem~partial.ext`, whatever the stem holds), and a name without `'.'`
/// gets `~partial.md` appended.
pub proof fn law_partial_name_keeps_extension(stem: Seq<char>, extension: Seq<char>, plain: Seq<char>)
    requires
        !extension.contains('.'),
        !plain.contains('.'),
    ensures
        spec_partial_file_name(stem + seq!['.'] + extension) == stem + "~partial."@ + extension,
        spec_partial_file_name(plain) == plain + "~partial.md"@,
{
    let name = stem + seq!['.'] + extension;
    assert(stem.push('.') + extension =~= name);
    lemma_last_index_after(stem, extension, '.');
    assert(name.take(stem.len() as int) =~= stem);
    assert(name.skip(stem.len() as int + 1) =~= extension);
    lemma_last_index_none(plain, '.');
}

/// The path of the partial output next to `output`: its file name (or
/// `output.md` when it has none) made partial.
pub open spec fn spec_partial_output_path(output: Seq<char>) -> Seq<char> {
    let name = match spec_path_file_name(output) {
        Some(n) => n,
        None => "output.md"@,
    };
    spec_path_with_file_name(output, spec_partial_file_name(name))
}

/// The file name of the partial output (see [`spec_partial_file_name`]).
pub fn partial_file_name(name: &str) -> (r: String)
    ensures
        r@ == spec_partial_file_name(name@),
{
    let cs = chars_of(name);
    let mut k = cs.len();
    proof {
        assert(cs@.take(k as int) =~= cs@);
    }
    while k > 0 && cs[k - 1] != '.'
        invariant
            k <= cs@.len(),
            cs@ == name@,
            last_index_of(cs@, '.') == last_index_of(cs@.take(k as int), '.'),
        decreases k,
    {
        proof {
            assert(cs@.take(k as int).drop_last() =~= cs@.take(k - 1));
            assert(cs@.take(k as int).last() == cs@[k - 1]);
        }
        k = k - 1;
    }
    proof {
        if k == cs@.len() {
            assert(cs@.take(k as int) =~= cs@);
        }
    }
    let mut out: Vec<char> = Vec::new();
    if k == 0 {
        proof {
            assert(cs@.take(0) =~= Seq::<char>::empty());
        }
        push_chars(&mut out, cs.as_slice());
        push_str(&mut out, "~partial.md");
    } else {
        proof {
            assert(cs@.take(k as int).last() == cs@[k - 1]);
            assert(last_index_of(cs@.take(k as int), '.') == Some((k - 1) as nat));
        }
        let mut i: usize = 0;
        while i < k - 1
            invariant
                i <= k - 1,
                k <= cs@.len(),
                out@ == cs@.take(i as int),
            decreases k - 1 - i,
        {
            out.push(cs[i]);
            proof {
                assert(out@ =~= cs@.take(i + 1));
            }
            i = i + 1;
        }
        push_str(&mut out, "~partial.");
        let mut j: usize = k;
        let ghost before = out@;
        while j < cs.len()
            invariant
                k <= j <= cs@.len(),
                out@ == before + cs@.subrange(k as int, j as int),
            decreases cs@.len() - j,
        {
            out.push(cs[j]);
            proof {
                assert(out@ =~= before + cs@.subrange(k as int, j + 1));
            }
            j = j + 1;
        }
        proof {
            assert(cs@.subrange(k as int, j as int) =~= cs@.skip(k as int));
        }
    }
    string_from_chars(out.as_slice())
}

/// The path of the partial output next to `output` (see
/// [`spec_partial_output_path`]).
pub fn partial_output_path(output: &str) -> (r: String)
    ensures
        r@ == spec_partial_output_path(output@),
{
    let name = match path_file_name(output) {
        Some(n) => n,
        None => to_string("output.md"),
    };
    let partial = partial_file_name(name.as_str());
    path_with_file_name(output, partial.as_str())
}


// ---------------------------------------------------------------- collecting pages

/// The pages with the views of their Markdown.
pub open spec fn page_views(v: Seq<(u32, String)>) -> Seq<(u32, Seq<char>)> {
    v.map_values(|p: (u32, String)| (p.0, p.1@))
}

/// Page numbers strictly increasing along `s`.
pub open spec fn keys_increasing(s: Seq<(u32, Seq<char>)>) -> bool {
    forall|i: int, j: int| 0 <= i < j < s.len() ==> #[trigger] s[i].0 < #[trigger] s[j].0
}

/// Page `k` is among `s`.
pub open spec fn has_key(s: Seq<(u32, Seq<char>)>, k: u32) -> bool {
    exists|i: int| 0 <= i < s.len() && #[trigger] s[i].0 == k
}

/// The Markdown of each page among `s`.
pub open spec fn entries_map(s: Seq<(u32, Seq<char>)>) -> Map<u32, Seq<char>> {
    Map::new(
        |k: u32| has_key(s, k),
        |k: u32| s[choose|i: int| 0 <= i < s.len() && #[trigger] s[i].0 == k].1,
    )
}

proof fn lemma_entries_map_at(s: Seq<(u32, Seq<char>)>, i: int)
    requires
        keys_increasing(s),
        0 <= i < s.len(),
    ensures
        entries_map(s).contains_key(s[i].0),
        entries_map(s)[s[i].0] == s[i].1,
{
    let k = s[i].0;
    assert(has_key(s, k));
    let c = choose|c: int| 0 <= c < s.len() && #[trigger] s[c].0 == k;
    if c < i {
        assert(s[c].0 < s[i].0);
    } else if c > i {
        assert(s[i].0 < s[c].0);
    }
}

/// The order of the pages depends only on which pages were collected with
/// which Markdown: two page lists with increasing page numbers and the
/// same pages are the same list, whatever order the pages arrived in.
pub proof fn law_page_order_canonical(a: Seq<(u32, Seq<char>)>, b: Seq<(u32, Seq<char>)>)
    requires
        keys_increasing(a),
        keys_increasing(b),
        entries_map(a) == entries_map(b),
    ensures
        a == b,
    decreases a.len(),
{
    if a.len() == 0 {
        if b.len() > 0 {
            lemma_entries_map_at(b, 0);
        }
        assert(a =~= b);
    } else {
        lemma_entries_map_at(a, 0);
        if b.len() == 0 {
            assert(!has_key(b, a[0].0));
        } else {
            lemma_entries_map_at(b, 0);
            assert(has_key(a, b[0].0));
            assert(has_key(b, a[0].0));
            let ia = choose|i: int| 0 <= i < a.len() && #[trigger] a[i].0 == b[0].0;
            let ib = choose|i: int| 0 <= i < b.len() && #[trigger] b[i].0 == a[0].0;
            if ia > 0 {
                assert(a[0].0 < a[ia].0);
            }
            if ib > 0 {
                assert(b[0].0 < b[ib].0);
            }
            assert(a[0].0 == b[0].0);
            let a2 = a.drop_first();
            let b2 = b.drop_first();
            assert forall|k: u32| #[trigger] has_key(a2, k) <==> has_key(b2, k) by {
                if has_key(a2, k) {
                    let i = choose|i: int| 0 <= i < a2.len() && #[trigger] a2[i].0 == k;
                    assert(a[i + 1].0 == k);
                    assert(has_key(a, k));
                    assert(entries_map(a).contains_key(k));
                    assert(entries_map(b).contains_key(k));
                    assert(has_key(b, k));
                    let j = choose|j: int| 0 <= j < b.len() && #[trigger] b[j].0 == k;
                    assert(a[0].0 < a[i + 1].0);
                    assert(j != 0);
                    assert(b2[j - 1].0 == k);
                }
                if has_key(b2, k) {
                    let i = choose|i: int| 0 <= i < b2.len() && #[trigger] b2[i].0 == k;
                    assert(b[i + 1].0 == k);
                    assert(has_key(b, k));
                    assert(entries_map(b).contains_key(k));
                    assert(entries_map(a).contains_key(k));
                    assert(has_key(a, k));
                    let j = choose|j: int| 0 <= j < a.len() && #[trigger] a[j].0 == k;
                    assert(b[0].0 < b[i + 1].0);
                    assert(j != 0);
                    assert(a2[j - 1].0 == k);
                }
            }
            assert forall|k: u32| #[trigger] has_key(a2, k) implies entries_map(a2)[k] == entries_map(
                b2,
            )[k] by {
                let i = choose|i: int| 0 <= i < a2.len() && #[trigger] a2[i].0 == k;
                let j = choose|j: int| 0 <= j < b2.len() && #[trigger] b2[j].0 == k;
                lemma_entries_map_at(a2, i);
                lemma_entries_map_at(b2, j);
                lemma_entries_map_at(a, i + 1);
                lemma_entries_map_at(b, j + 1);
            }
            assert(entries_map(a2) =~= entries_map(b2));
            law_page_order_canonical(a2, b2);
            assert(entries_map(a)[a[0].0] == entries_map(b)[b[0].0]);
            assert(a[0] == b[0]);
            assert(a.len() == b.len());
            assert forall|i: int| 0 <= i < a.len() implies a[i] == b[i] by {
                if i > 0 {
                    assert(a[i] == a2[i - 1]);
                    assert(b[i] == b2[i - 1]);
                }
            }
            assert(a =~= b);
        }
    }
}

/// How a run ended: where the Markdown was written, how many pages it
/// holds, and whether the run was cut short.
pub struct RunSummary {
    pub output_path: String,
    pub pages_written: usize,
    pub partial: bool,
}

/// The Markdown of each completed page among `outcomes`, a later outcome
/// of a page replacing an earlier one.
pub open spec fn outcomes_map(outcomes: Seq<PageOutcome>) -> Map<u32, Seq<char>>
    decreases outcomes.len(),
{
    if outcomes.len() == 0 {
        Map::empty()
    } else {
        let m = outcomes_map(outcomes.drop_last());
        match outcomes.last() {
            PageOutcome::Completed { page_number, markdown } => m.insert(page_number, markdown@),
            PageOutcome::Skipped { .. } => m,
        }
    }
}

/// When every page of a document was completed, once each, the collected
/// pages are exactly the document's pages: a run without shutdown writes
/// every page.
pub proof fn law_every_page_written(outcomes: Seq<PageOutcome>, pages: Seq<u32>)
    requires
        pages.no_duplicates(),
        outcomes.len() == pages.len(),
        forall|i: int| 0 <= i < outcomes.len() ==> (#[trigger] outcomes[i] matches PageOutcome::Completed { page_number, .. }
            && page_number == pages[i]),
    ensures
        outcomes_map(outcomes).dom() == pages.to_set(),
        outcomes_map(outcomes).len() == pages.len(),
    decreases outcomes.len(),
{
    if outcomes.len() == 0 {
        assert(pages.to_set() =~= Set::<u32>::empty());
    } else {
        let o2 = outcomes.drop_last();
        let p2 = pages.drop_last();
        assert forall|i: int| 0 <= i < o2.len() implies (#[trigger] o2[i] matches PageOutcome::Completed { page_number, .. }
            && page_number == p2[i]) by {
            assert(o2[i] == outcomes[i]);
        }
        law_every_page_written(o2, p2);
        let k = pages.last();
        assert(outcomes.last() matches PageOutcome::Completed { page_number, .. } && page_number == k);
        assert(pages.to_set() =~= p2.to_set().insert(k)) by {
            assert forall|x: u32| pages.to_set().contains(x) <==> p2.to_set().insert(k).contains(x) by {
                if pages.to_set().contains(x) {
                    let i = choose|i: int| 0 <= i < pages.len() && pages[i] == x;
                    if i < p2.len() {
                        assert(p2[i] == x);
                    }
                }
                if p2.to_set().contains(x) {
                    let i = choose|i: int| 0 <= i < p2.len() && p2[i] == x;
                    assert(pages[i] == x);
                }
                if x == k {
                    assert(pages[pages.len() - 1] == x);
                }
            }
        }
        assert(!p2.to_set().contains(k)) by {
            if p2.to_set().contains(k) {
                let i = choose|i: int| 0 <= i < p2.len() && p2[i] == k;
                assert(pages[i] == pages[pages.len() - 1]);
            }
        }
        assert(outcomes_map(outcomes).dom() =~= outcomes_map(o2).dom().insert(k));
    }
}

/// The pages finished so far, with their Markdown, by page number.
pub struct PageCollector {
    pages: BTreeMap<u32, String>,
}

proof fn lemma_increasing_keys(ks: Seq<u32>)
    requires
        increasing_seq(ks),
    ensures
        forall|i: int, j: int| 0 <= i < j < ks.len() ==> ks[i] < ks[j],
{
    axiom_increasing_seq_meaning(ks);
    assert forall|i: int, j: int| 0 <= i < j < ks.len() implies ks[i] < ks[j] by {
        assert(vstd::std_specs::cmp::OrdSpec::cmp_spec(&ks[i], &ks[j]) is Less);
    }
}

impl PageCollector {
    /// The Markdown of each collected page.
    pub closed spec fn collected(&self) -> Map<u32, Seq<char>> {
        self.pages@.map_values(|s: String| s@)
    }

    /// No page collected yet.
    pub fn new() -> (r: PageCollector)
        ensures
            r.collected() == Map::<u32, Seq<char>>::empty(),
    {
        let r = PageCollector { pages: BTreeMap::new() };
        proof {
            assert(r.collected() =~= Map::<u32, Seq<char>>::empty());
        }
        r
    }

    /// The pages of all the outcomes, taken in in order.
    pub fn from_outcomes(outcomes: Vec<PageOutcome>) -> (r: PageCollector)
        ensures
            r.collected() == outcomes_map(outcomes@),
    {
        let ghost all = outcomes@;
        let mut rest = outcomes;
        let mut c = PageCollector::new();
        let ghost mut i: int = 0;
        proof {
            assert(all.take(0) =~= Seq::<PageOutcome>::empty());
            assert(all.skip(0) =~= all);
        }
        while rest.len() > 0
            invariant
                0 <= i <= all.len(),
                rest@ == all.skip(i),
                c.collected() == outcomes_map(all.take(i)),
            decreases rest@.len(),
        {
            let o = rest.remove(0);
            proof {
                assert(o == all[i]);
                assert(all.take(i + 1).drop_last() =~= all.take(i));
                assert(all.take(i + 1).last() == all[i]);
                assert(rest@ =~= all.skip(i + 1));
            }
            c.record(o);
            proof {
                i = i + 1;
            }
        }
        proof {
            assert(all.take(i) =~= all);
        }
        c
    }

    /// The number of collected pages.
    pub fn len(&self) -> (n: usize)
        ensures
            n == self.collected().len(),
    {
        proof {
            assert(key_obeys_cmp_spec::<u32>());
            assert(self.collected().dom() =~= self.pages@.dom());
        }
        self.pages.len()
    }

    /// Takes in the outcome of a page task: a completed page is collected
    /// (replacing an earlier Markdown of the same page), a skipped one is
    /// not.
    pub fn record(&mut self, outcome: PageOutcome)
        ensures
            match outcome {
                PageOutcome::Completed { page_number, markdown } => final(self).collected()
                    == old(self).collected().insert(page_number, markdown@),
                PageOutcome::Skipped { .. } => final(self).collected() == old(self).collected(),
            },
    {
        match outcome {
            PageOutcome::Skipped { .. } => {},
            PageOutcome::Completed { page_number, markdown } => {
                let ghost md = markdown@;
                let ghost before = self.collected();
                self.pages.insert(page_number, markdown);
                proof {
                    assert(self.collected() =~= before.insert(page_number, md));
                }
            },
        }
    }

    /// The end of a run with `page_count` pages whose output goes to
    /// `output`: the pages in page order, and the summary. The run is
    /// partial when a shutdown was requested and pages are missing; its
    /// output then goes to the partial path next to `output`.
    pub fn finish(&self, shutdown: bool, page_count: usize, output: &str) -> (r: (
        Vec<(u32, String)>,
        RunSummary,
    ))
        ensures
            keys_increasing(page_views(r.0@)),
            entries_map(page_views(r.0@)) == self.collected(),
            r.1.pages_written == self.collected().len(),
            r.1.partial == (shutdown && self.collected().len() < page_count),
            r.1.partial ==> r.1.output_path@ == spec_partial_output_path(output@),
            !r.1.partial ==> r.1.output_path@ == output@,
    {
        let pages = self.ordered_pages();
        let partial = shutdown && pages.len() < page_count;
        let output_path = if partial {
            partial_output_path(output)
        } else {
            to_string(output)
        };
        let written = pages.len();
        (pages, RunSummary { output_path, pages_written: written, partial })
    }

    /// The end of a run that stopped on a page error: the pages completed
    /// so far in page order, and the summary. When pages are missing the
    /// run is partial and its output goes to the partial path next to
    /// `output`, so that the completed pages are kept.
    pub fn finish_after_error(&self, page_count: usize, output: &str) -> (r: (
        Vec<(u32, String)>,
        RunSummary,
    ))
        ensures
            keys_increasing(page_views(r.0@)),
            entries_map(page_views(r.0@)) == self.collected(),
            r.1.pages_written == self.collected().len(),
            r.1.partial == (self.collected().len() < page_count),
            r.1.partial ==> r.1.output_path@ == spec_partial_output_path(output@),
            !r.1.partial ==> r.1.output_path@ == output@,
    {
        self.finish(true, page_count, output)
    }

    /// The collected pages with their Markdown, in increasing page order.
    pub fn ordered_pages(&self) -> (r: Vec<(u32, String)>)
        ensures
            keys_increasing(page_views(r@)),
            entries_map(page_views(r@)) == self.collected(),
            r@.len() == self.collected().len(),
    {
        let mut r: Vec<(u32, String)> = Vec::new();
        let iter = self.pages.iter();
        let ghost s = iter.remaining();
        proof {
            assert(key_obeys_cmp_spec::<u32>());
            let ks = s.map_values(|kv: (&u32, &String)| *kv.0);
            assert(increasing_seq(ks));
            lemma_increasing_keys(ks);
            assert forall|i: int, j: int| 0 <= i < j < s.len() implies *s[i].0 < *s[j].0 by {
                assert(ks[i] == *s[i].0);
                assert(ks[j] == *s[j].0);
            }
        }
        for kv in it: iter
            invariant
                it.seq() == s,
                r@.len() == it.index(),
                forall|i: int| 0 <= i < r@.len() ==> r@[i].0 == *s[i].0 && r@[i].1@ == s[i].1@,
        {
            let (k, v) = kv;
            r.push((*k, v.clone()));
        }
        proof {
            let m = self.pages@;
            let pv = page_views(r@);
            assert(pv.len() == s.len());
            assert forall|i: int, j: int| 0 <= i < j < pv.len() implies #[trigger] pv[i].0 < #[trigger] pv[j].0 by {
                assert(pv[i].0 == r@[i].0);
                assert(pv[j].0 == r@[j].0);
                assert(*s[i].0 < *s[j].0);
            }
            assert forall|k: u32| #[trigger] has_key(pv, k) <==> self.collected().contains_key(k) by {
                if has_key(pv, k) {
                    let i = choose|i: int| 0 <= i < pv.len() && #[trigger] pv[i].0 == k;
                    assert(r@[i].0 == *s[i].0);
                    assert(m.contains_key(*s[i].0));
                }
                if m.contains_key(k) {
                    assert(s.contains((&k, &m[k])));
                    let i = choose|i: int| 0 <= i < s.len() && s[i] == (&k, &m[k]);
                    assert(pv[i].0 == k);
                }
            }
            assert forall|k: u32| #[trigger] has_key(pv, k) implies entries_map(pv)[k] == self.collected()[k] by {
                let i = choose|i: int| 0 <= i < pv.len() && #[trigger] pv[i].0 == k;
                lemma_entries_map_at(pv, i);
                assert(r@[i].0 == *s[i].0);
                assert(m[*s[i].0] == *s[i].1);
            }
            assert(entries_map(pv) =~= self.collected());
            lemma_entries_map_len(pv);
        }
        r
    }
}

proof fn lemma_entries_map_len(s: Seq<(u32, Seq<char>)>)
    requires
        keys_increasing(s),
    ensures
        entries_map(s).dom().finite(),
        entries_map(s).len() == s.len(),
    decreases s.len(),
{
    if s.len() == 0 {
        assert(entries_map(s).dom() =~= Set::<u32>::empty());
    } else {
        let s2 = s.drop_last();
        lemma_entries_map_len(s2);
        let k = s.last().0;
        assert forall|x: u32| #[trigger] has_key(s, x) <==> has_key(s2, x) || x == k by {
            if has_key(s, x) && x != k {
                let i = choose|i: int| 0 <= i < s.len() && #[trigger] s[i].0 == x;
                assert(s2[i].0 == x);
            }
            if has_key(s2, x) {
                let i = choose|i: int| 0 <= i < s2.len() && #[trigger] s2[i].0 == x;
                assert(s[i].0 == x);
            }
            if x == k {
                assert(s[s.len() - 1].0 == x);
            }
        }
        assert(entries_map(s).dom() =~= entries_map(s2).dom().insert(k));
        assert(!has_key(s2, k)) by {
            if has_key(s2, k) {
                let i = choose|i: int| 0 <= i < s2.len() && #[trigger] s2[i].0 == k;
                assert(s[i].0 < s[s.len() - 1].0);
            }
        }
    }
}

} // verus!
