//! Changeset lifecycle: the explicit state machine a changeset moves through,
//! the changeset record, and the branch name a new changeset is given.

use vstd::prelude::*;
use crate::domain::{Error, RepoId};
use crate::text::{push_char, str_eq, to_chars, string_of, byte_offset, char_len, utf8_len};

verus! {

/// Explicit changeset states.
#[derive(Debug, Clone, Copy, PartialEq, Eq, Structural)]
pub enum ChangesetState {
    Draft,
    Submitted,
    Verifying,
    Approved,
    Rejected,
    Merged,
    Closed,
}

/// The database label of each state.
pub open spec fn state_label(s: ChangesetState) -> Seq<char> {
    match s {
        ChangesetState::Draft => "draft"@,
        ChangesetState::Submitted => "submitted"@,
        ChangesetState::Verifying => "verifying"@,
        ChangesetState::Approved => "approved"@,
        ChangesetState::Rejected => "rejected"@,
        ChangesetState::Merged => "merged"@,
        ChangesetState::Closed => "closed"@,
    }
}

/// The state a database label names, if any.
pub open spec fn parse_state(s: Seq<char>) -> Option<ChangesetState> {
    if s == "draft"@ {
        Some(ChangesetState::Draft)
    } else if s == "submitted"@ {
        Some(ChangesetState::Submitted)
    } else if s == "verifying"@ {
        Some(ChangesetState::Verifying)
    } else if s == "approved"@ {
        Some(ChangesetState::Approved)
    } else if s == "rejected"@ {
        Some(ChangesetState::Rejected)
    } else if s == "merged"@ {
        Some(ChangesetState::Merged)
    } else if s == "closed"@ {
        Some(ChangesetState::Closed)
    } else {
        None
    }
}

/// The allowed transitions: draft -> submitted -> verifying -> approved | rejected,
/// approved -> merged, and any state -> closed.
pub open spec fn transition_allowed(from: ChangesetState, to: ChangesetState) -> bool {
    ||| to == ChangesetState::Closed
    ||| (from == ChangesetState::Draft && to == ChangesetState::Submitted)
    ||| (from == ChangesetState::Submitted && to == ChangesetState::Verifying)
    ||| (from == ChangesetState::Verifying && to == ChangesetState::Approved)
    ||| (from == ChangesetState::Verifying && to == ChangesetState::Rejected)
    ||| (from == ChangesetState::Approved && to == ChangesetState::Merged)
}

/// Terminal states: the backing workspace no longer needs to be preserved.
pub open spec fn state_is_terminal(s: ChangesetState) -> bool {
    s == ChangesetState::Draft || s == ChangesetState::Merged || s == ChangesetState::Rejected
        || s == ChangesetState::Closed
}

impl ChangesetState {
    /// Parse a state string from the database.
    pub fn parse(s: &str) -> (r: Option<Self>)
        ensures
            r == parse_state(s@),
    {
        if str_eq(s, "draft") {
            Some(ChangesetState::Draft)
        } else if str_eq(s, "submitted") {
            Some(ChangesetState::Submitted)
        } else if str_eq(s, "verifying") {
            Some(ChangesetState::Verifying)
        } else if str_eq(s, "approved") {
            Some(ChangesetState::Approved)
        } else if str_eq(s, "rejected") {
            Some(ChangesetState::Rejected)
        } else if str_eq(s, "merged") {
            Some(ChangesetState::Merged)
        } else if str_eq(s, "closed") {
            Some(ChangesetState::Closed)
        } else {
            None
        }
    }

    /// The database string representation.
    pub fn as_str(&self) -> (r: &'static str)
        ensures
            r@ == state_label(*self),
    {
        match self {
            ChangesetState::Draft => "draft",
            ChangesetState::Submitted => "submitted",
            ChangesetState::Verifying => "verifying",
            ChangesetState::Approved => "approved",
            ChangesetState::Rejected => "rejected",
            ChangesetState::Merged => "merged",
            ChangesetState::Closed => "closed",
        }
    }

    /// Whether moving from `self` to `target` is a valid transition.
    pub fn can_transition_to(&self, target: Self) -> (r: bool)
        ensures
            r == transition_allowed(*self, target),
            r && target == ChangesetState::Merged ==> *self == ChangesetState::Approved,
            r && target == ChangesetState::Approved ==> *self == ChangesetState::Verifying,
            r && target == ChangesetState::Rejected ==> *self == ChangesetState::Verifying,
            target == ChangesetState::Closed ==> r,
    {
        if target == ChangesetState::Closed {
            return true;
        }
        match (*self, target) {
            (ChangesetState::Draft, ChangesetState::Submitted) => true,
            (ChangesetState::Submitted, ChangesetState::Verifying) => true,
            (ChangesetState::Verifying, ChangesetState::Approved) => true,
            (ChangesetState::Verifying, ChangesetState::Rejected) => true,
            (ChangesetState::Approved, ChangesetState::Merged) => true,
            _ => false,
        }
    }

    /// True when the changeset is in a terminal state (draft, merged,
    /// rejected or closed).
    pub fn is_terminal(&self) -> (r: bool)
        ensures
            r == state_is_terminal(*self),
    {
        match self {
            ChangesetState::Draft | ChangesetState::Merged | ChangesetState::Rejected
            | ChangesetState::Closed => true,
            _ => false,
        }
    }
}

/// Every state's label parses back to that state.
pub proof fn lemma_parse_as_str_roundtrip(s: ChangesetState)
    ensures
        parse_state(state_label(s)) == Some(s),
{
    reveal_strlit("draft");
    reveal_strlit("submitted");
    reveal_strlit("verifying");
    reveal_strlit("approved");
    reveal_strlit("rejected");
    reveal_strlit("merged");
    reveal_strlit("closed");
    let labels = seq!["draft"@, "submitted"@, "verifying"@, "approved"@, "rejected"@, "merged"@, "closed"@];
    assert(labels[0][0] == 'd' && labels[1][0] == 's' && labels[2][0] == 'v' && labels[3][0] == 'a');
    assert(labels[4][0] == 'r' && labels[5][0] == 'm' && labels[6][0] == 'c');
}

/// A changeset record.  Identifiers are UUIDs held as 128-bit values and
/// timestamps are microseconds since the Unix epoch.
#[derive(Debug, Clone)]
pub struct Changeset {
    pub id: u128,
    pub repo_id: RepoId,
    pub number: i32,
    pub title: String,
    pub intent_summary: Option<String>,
    pub source_branch: String,
    pub target_branch: String,
    pub state: String,
    pub reason: String,
    pub session_id: Option<u128>,
    pub agent_id: Option<String>,
    pub agent_name: Option<String>,
    pub author_id: Option<u128>,
    pub base_version: Option<String>,
    pub merged_version: Option<String>,
    pub created_at: i64,
    pub updated_at: i64,
    pub merged_at: Option<i64>,
    pub parent_changeset_id: Option<u128>,
}

impl Changeset {
    /// The typed state named by the record's state string.
    pub fn parsed_state(&self) -> (r: Option<ChangesetState>)
        ensures
            r == parse_state(self.state@),
    {
        ChangesetState::parse(self.state.as_str())
    }

    /// Validate and perform a state transition, recording the reason.
    pub fn transition(&mut self, target: ChangesetState, reason: String) -> (r: Result<(), Error>)
        ensures
            r is Ok && target == ChangesetState::Merged ==> old(self).state@ == "approved"@,
            match parse_state(old(self).state@) {
                None => r matches Err(Error::Internal(_)) && *final(self) == *old(self),
                Some(cur) => if transition_allowed(cur, target) {
                    &&& r is Ok
                    &&& final(self).state@ == state_label(target)
                    &&& final(self).reason@ == reason@
                    &&& *final(self) == (Changeset { state: final(self).state, reason: final(self).reason, ..*old(self) })
                } else {
                    &&& r matches Err(Error::InvalidInput(msg))
                    &&& msg@ == "invalid state transition: '"@ + state_label(cur) + "' -> '"@ + state_label(target) + "'"@
                    &&& *final(self) == *old(self)
                },
            },
    {
        let current = match self.parsed_state() {
            Some(c) => c,
            None => {
                let mut msg = String::from_str("unknown current state: '");
                msg.append(self.state.as_str());
                msg.append("'");
                return Err(Error::Internal(msg));
            },
        };
        if !current.can_transition_to(target) {
            let mut msg = String::from_str("invalid state transition: '");
            msg.append(current.as_str());
            msg.append("' -> '");
            msg.append(target.as_str());
            msg.append("'");
            return Err(Error::InvalidInput(msg));
        }
        self.state = String::from_str(target.as_str());
        self.reason = reason;
        Ok(())
    }
}

/// Metadata of one file in a changeset, without its content.
#[derive(Debug, Clone)]
pub struct ChangesetFileMeta {
    pub file_path: String,
    pub operation: String,
    pub size_bytes: i64,
}

/// One file of a changeset with its content.
#[derive(Debug, Clone)]
pub struct ChangesetFile {
    pub changeset_id: u128,
    pub file_path: String,
    pub operation: String,
    pub content: Option<String>,
}

// ── Branch names ─────────────────────────────────────────────────────

/// The lowercase form of a text (`str::to_lowercase`).
pub uninterp spec fn lowercase(s: Seq<char>) -> Seq<char>;

/// Whether a character is alphanumeric (`char::is_alphanumeric`).
pub uninterp spec fn alphanumeric(c: char) -> bool;

/// The lowercase form of an ASCII character: `A`-`Z` become `a`-`z`, all
/// else stays.
pub open spec fn ascii_lower(c: char) -> char {
    if 'A' <= c && c <= 'Z' { ((c as u32) + 32) as char } else { c }
}

/// Whether an ASCII character is a letter or a digit.
pub open spec fn ascii_alnum(c: char) -> bool {
    ('a' <= c && c <= 'z') || ('A' <= c && c <= 'Z') || ('0' <= c && c <= '9')
}

/// `str::to_lowercase`. The contract claims its result is the text's
/// lowercase form, and that an ASCII text is lowered character by
/// character (Unicode's lowercase mapping of `A`-`Z` is `a`-`z`, and leaves
/// other ASCII characters as they are).
#[verifier::external_body]
fn to_lowercase(s: &str) -> (r: String)
    ensures
        r@ == lowercase(s@),
        (forall|i: int| 0 <= i < s@.len() ==> (#[trigger] s@[i] as u32) < 128) ==> r@ == s@.map_values(
            |c: char| ascii_lower(c),
        ),
{
    s.to_lowercase()
}

/// `char::is_alphanumeric`. The contract claims its result, and that an
/// ASCII character is alphanumeric exactly when it is a letter or a digit.
#[verifier::external_body]
fn is_alphanumeric(c: char) -> (r: bool)
    ensures
        r == alphanumeric(c),
        (c as u32) < 128 ==> (r <==> ascii_alnum(c)),
{
    c.is_alphanumeric()
}

/// A character as it stands in a branch slug: letters, digits and dashes
/// stay, anything else becomes a dash.
pub open spec fn slug_char(c: char) -> char {
    if alphanumeric(c) || c == '-' { c } else { '-' }
}

/// `s` without leading dashes.
pub open spec fn trim_dashes_left(s: Seq<char>) -> Seq<char>
    decreases s.len(),
{
    if s.len() > 0 && s[0] == '-' { trim_dashes_left(s.drop_first()) } else { s }
}

/// `s` without trailing dashes.
pub open spec fn trim_dashes_right(s: Seq<char>) -> Seq<char>
    decreases s.len(),
{
    if s.len() > 0 && s.last() == '-' { trim_dashes_right(s.drop_last()) } else { s }
}

/// How many characters of `s` start before byte 50 of its UTF-8 form.
pub open spec fn chars_before_limit(s: Seq<char>) -> int
    decreases s.len(),
{
    if s.len() == 0 {
        0
    } else if byte_offset(s, s.len() - 1) < 50 {
        s.len() as int
    } else {
        chars_before_limit(s.drop_last())
    }
}

/// The slug of an intent: lowercased, every character but letters, digits
/// and dashes made a dash, dashes trimmed from both ends; when that is over
/// 50 bytes, cut after the last character that starts before byte 50 and
/// trimmed of trailing dashes.
pub open spec fn slug_of(intent: Seq<char>) -> Seq<char> {
    let mapped = lowercase(intent).map_values(|c: char| slug_char(c));
    let t = trim_dashes_right(trim_dashes_left(mapped));
    if byte_offset(t, t.len() as int) > 50 {
        trim_dashes_right(t.take(chars_before_limit(t)))
    } else {
        t
    }
}

proof fn lemma_trim_dashes_left_from(s: Seq<char>, lo: int)
    requires
        0 <= lo <= s.len(),
        forall|k: int| 0 <= k < lo ==> s[k] == '-',
        lo < s.len() ==> s[lo] != '-',
    ensures
        trim_dashes_left(s) == s.subrange(lo, s.len() as int),
    decreases lo,
{
    if lo > 0 {
        let t = s.drop_first();
        assert forall|k: int| 0 <= k < lo - 1 implies t[k] == '-' by {
            assert(t[k] == s[k + 1]);
        }
        lemma_trim_dashes_left_from(t, lo - 1);
        assert(t.subrange(lo - 1, t.len() as int) =~= s.subrange(lo, s.len() as int));
    } else {
        assert(s.subrange(0, s.len() as int) =~= s);
    }
}

proof fn lemma_trim_dashes_right_to(s: Seq<char>, hi: int)
    requires
        0 <= hi <= s.len(),
        forall|k: int| hi <= k < s.len() ==> s[k] == '-',
        hi > 0 ==> s[hi - 1] != '-',
    ensures
        trim_dashes_right(s) == s.subrange(0, hi),
    decreases s.len() - hi,
{
    if hi < s.len() {
        let t = s.drop_last();
        lemma_trim_dashes_right_to(t, hi);
        assert(t.subrange(0, hi) =~= s.subrange(0, hi));
    } else {
        assert(s.subrange(0, hi) =~= s);
    }
}

/// The end of `v[0..hi]` once trailing dashes are dropped.
fn trimmed_end(v: &Vec<char>, hi: usize) -> (r: usize)
    requires
        hi <= v@.len(),
    ensures
        r <= hi,
        trim_dashes_right(v@.take(hi as int)) == v@.take(r as int),
{
    let mut e = hi;
    while e > 0 && v[e - 1] == '-'
        invariant
            e <= hi <= v@.len(),
            forall|k: int| e <= k < hi ==> v@[k] == '-',
        decreases e,
    {
        e = e - 1;
    }
    proof {
        let t = v@.take(hi as int);
        assert forall|k: int| e <= k < t.len() implies t[k] == '-' by {}
        lemma_trim_dashes_right_to(t, e as int);
        assert(t.subrange(0, e as int) =~= v@.take(e as int));
    }
    e
}

/// The branch slug of an intent (see `slug_of`).
pub fn intent_slug(intent: &str) -> (r: String)
    ensures
        r@ == slug_of(intent@),
{
    let lower = to_lowercase(intent);
    let chars = to_chars(lower.as_str());
    let n = chars.len();
    let mut mapped: Vec<char> = Vec::new();
    let mut i: usize = 0;
    while i < n
        invariant
            n == chars@.len(),
            chars@ == lowercase(intent@),
            i <= n,
            mapped@ == chars@.take(i as int).map_values(|c: char| slug_char(c)),
        decreases n - i,
    {
        let c = chars[i];
        let m = if is_alphanumeric(c) || c == '-' { c } else { '-' };
        mapped.push(m);
        assert(chars@.take(i as int + 1).map_values(|c: char| slug_char(c))
            =~= chars@.take(i as int).map_values(|c: char| slug_char(c)).push(slug_char(c)));
        i = i + 1;
    }
    assert(chars@.take(n as int) =~= chars@);
    let ghost mv = mapped@;
    // leading dashes
    let mut lo: usize = 0;
    while lo < n && mapped[lo] == '-'
        invariant
            n == mapped@.len(),
            lo <= n,
            forall|k: int| 0 <= k < lo ==> mapped@[k] == '-',
        decreases n - lo,
    {
        lo = lo + 1;
    }
    let mut t: Vec<char> = Vec::new();
    let mut j = lo;
    while j < n
        invariant
            lo <= j <= n,
            n == mapped@.len(),
            t@ == mapped@.subrange(lo as int, j as int),
        decreases n - j,
    {
        t.push(mapped[j]);
        assert(mapped@.subrange(lo as int, j + 1) =~= mapped@.subrange(lo as int, j as int).push(mapped@[j as int]));
        j = j + 1;
    }
    proof {
        lemma_trim_dashes_left_from(mv, lo as int);
    }
    let end = trimmed_end(&t, t.len());
    assert(t@.take(t@.len() as int) =~= t@);
    // the trimmed slug is t[0..end]; measure its bytes
    let ghost ts = t@.take(end as int);
    let mut bytes: u128 = 0;
    let mut cut: usize = 0;
    let mut k: usize = 0;
    while k < end
        invariant
            end <= t@.len(),
            ts == t@.take(end as int),
            k <= end,
            bytes == byte_offset(ts, k as int),
            bytes <= 4 * k,
            cut == chars_before_limit(ts.take(k as int)),
            cut <= k,
        decreases end - k,
    {
        assert(ts.take(k as int + 1).drop_last() =~= ts.take(k as int));
        proof {
            lemma_byte_offset_prefix(ts, k as int);
        }
        if bytes < 50 {
            cut = k + 1;
        }
        bytes = bytes + utf8_len(t[k]) as u128;
        k = k + 1;
    }
    assert(ts.take(end as int) =~= ts);
    if bytes > 50 {
        let e = trimmed_end(&t, cut);
        assert(ts.take(cut as int) =~= t@.take(cut as int));
        string_of(&t, 0, e)
    } else {
        string_of(&t, 0, end)
    }
}

proof fn lemma_byte_offset_prefix(s: Seq<char>, k: int)
    requires
        0 <= k < s.len(),
    ensures
        byte_offset(s.take(k + 1), k) == byte_offset(s, k),
        byte_offset(s, k + 1) == byte_offset(s, k) + char_len(s[k]),
{
    lemma_byte_offset_take(s, k + 1, k);
}

proof fn lemma_byte_offset_take(s: Seq<char>, n: int, k: int)
    requires
        0 <= k <= n <= s.len(),
    ensures
        byte_offset(s.take(n), k) == byte_offset(s, k),
    decreases k,
{
    if k > 0 {
        lemma_byte_offset_take(s, n, k - 1);
    }
}

/// The source branch of a changeset: the intent's slug, a slash, the
/// agent's name.
pub fn source_branch(intent: &str, agent_name: &str) -> (r: String)
    ensures
        r@ == slug_of(intent@) + "/"@ + agent_name@,
{
    let mut b = intent_slug(intent);
    b.append("/");
    b.append(agent_name);
    b
}

/// The branch every changeset targets.
pub fn target_branch() -> (r: &'static str)
    ensures
        r@ == "main"@,
{
    "main"
}

/// The state machine's one way into each state: a changeset is merged only
/// once approved, approved or rejected only while verifying, verified only
/// once submitted, submitted only from draft; it can always be closed, and
/// nothing leads back to draft.
pub proof fn lemma_transition_paths(from: ChangesetState, to: ChangesetState)
    ensures
        transition_allowed(from, to) && to == ChangesetState::Merged ==> from == ChangesetState::Approved,
        transition_allowed(from, to) && to == ChangesetState::Approved ==> from == ChangesetState::Verifying,
        transition_allowed(from, to) && to == ChangesetState::Rejected ==> from == ChangesetState::Verifying,
        transition_allowed(from, to) && to == ChangesetState::Verifying ==> from == ChangesetState::Submitted,
        transition_allowed(from, to) && to == ChangesetState::Submitted ==> from == ChangesetState::Draft,
        !transition_allowed(from, ChangesetState::Draft),
        transition_allowed(from, ChangesetState::Closed),
        transition_allowed(ChangesetState::Approved, ChangesetState::Merged),
        transition_allowed(ChangesetState::Verifying, ChangesetState::Approved),
        transition_allowed(ChangesetState::Verifying, ChangesetState::Rejected),
        transition_allowed(ChangesetState::Submitted, ChangesetState::Verifying),
        transition_allowed(ChangesetState::Draft, ChangesetState::Submitted),
{
}

/// Each state's label parses back to the state.
pub proof fn lemma_labels_parse(st: ChangesetState)
    ensures
        parse_state(state_label(st)) == Some(st),
{
    reveal_strlit("draft");
    reveal_strlit("submitted");
    reveal_strlit("verifying");
    reveal_strlit("approved");
    reveal_strlit("rejected");
    reveal_strlit("merged");
    reveal_strlit("closed");
    assert("draft"@[0] == 'd' && "submitted"@[0] == 's' && "verifying"@[0] == 'v' && "approved"@[0] == 'a');
    assert("rejected"@[0] == 'r' && "merged"@[0] == 'm' && "closed"@[0] == 'c');
}

} // verus!
