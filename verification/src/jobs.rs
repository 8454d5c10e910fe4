//! Attestation job lifecycle.
//!
//! A job is created `Pending` at submission and moves exactly once to
//! `Done` or `Error`; terminal states are final.  The table is a plain
//! map keyed by the numeric job identifier — the caller wraps it in its
//! own lock for concurrent readers — and an identifier that was never
//! submitted is simply absent, which callers report as "not found",
//! never as pending.

use vstd::prelude::*;
use std::collections::HashMap;
use crate::text::{ascii_str_of, ascii_to_string};

verus! {

broadcast use vstd::std_specs::hash::group_hash_axioms;

/// Relies on rand::random: a value drawn from the thread-local generator.
/// Nothing can be promised of it; every contract here holds for any
/// returned identifier.
pub assume_specification<T>[ rand::random::<T> ]() -> (r: T)
    where
        rand::distributions::Standard: rand::distributions::Distribution<T>,
;

/// The stored result of a finished attestation job.
#[derive(Clone, Debug)]
pub struct ProofResult {
    /// Hex rendering of the 32-byte ledger commitment.
    pub ledger_commitment: String,
    pub total_tax_paisa: u64,
    pub user_type_code: u8,
    pub used_44ada: bool,
    /// Base64 rendering of the proof blob.
    pub proof: String,
    /// Base64 rendering of the encoded public values.
    pub public_values: String,
    pub vk_hash: String,
}

/// The lifecycle state of one job.
#[derive(Clone, Debug)]
pub enum JobStatus {
    Pending,
    Done(ProofResult),
    Error(String),
}

/// Whether a status is terminal: anything but pending.
pub open spec fn is_terminal(s: JobStatus) -> bool {
    !(s is Pending)
}

/// What finishing a job does to the table: a pending job moves to the
/// given terminal status; an absent or already-finished job is untouched.
pub open spec fn finish_map(m: Map<u64, JobStatus>, id: u64, st: JobStatus) -> Map<u64, JobStatus> {
    if m.contains_key(id) && m[id] is Pending {
        m.insert(id, st)
    } else {
        m
    }
}

/// The shared job table, keyed by numeric job identifier.
pub struct JobStore {
    jobs: HashMap<u64, JobStatus>,
}

impl View for JobStore {
    type V = Map<u64, JobStatus>;

    closed spec fn view(&self) -> Map<u64, JobStatus> {
        self.jobs@
    }
}

impl JobStore {
    /// An empty job table.
    pub fn new() -> (r: JobStore)
        ensures
            r@ == Map::<u64, JobStatus>::empty(),
    {
        JobStore { jobs: HashMap::new() }
    }

    /// Allocate an identifier and record the job as pending.  The
    /// identifier is returned at once, before any computation runs.
    pub fn submit(&mut self) -> (id: u64)
        ensures
            final(self)@ == old(self)@.insert(id, JobStatus::Pending),
            final(self)@[id] is Pending,
    {
        let id = rand::random::<u64>();
        self.jobs.insert(id, JobStatus::Pending);
        id
    }

    /// Record a successful result.  Only a pending job moves; a terminal
    /// status is never overwritten, and an unknown identifier stays
    /// absent.
    pub fn complete(&mut self, id: u64, result: ProofResult)
        ensures
            final(self)@ == finish_map(old(self)@, id, JobStatus::Done(result)),
    {
        let pending = match self.jobs.get(&id) {
            Some(s) => matches!(s, JobStatus::Pending),
            None => false,
        };
        if pending {
            self.jobs.insert(id, JobStatus::Done(result));
        }
    }

    /// Record a failure, with a human-readable message.  Only a pending
    /// job moves; a terminal status is never overwritten.
    pub fn fail(&mut self, id: u64, message: String)
        ensures
            final(self)@ == finish_map(old(self)@, id, JobStatus::Error(message)),
    {
        let pending = match self.jobs.get(&id) {
            Some(s) => matches!(s, JobStatus::Pending),
            None => false,
        };
        if pending {
            self.jobs.insert(id, JobStatus::Error(message));
        }
    }

    /// Read a job's status.  An identifier that was never submitted
    /// reads as `None` — "not found", distinct from a pending job.
    pub fn status(&self, id: u64) -> (r: Option<&JobStatus>)
        ensures
            match r {
                Some(s) => self@.contains_key(id) && *s == self@[id],
                None => !self@.contains_key(id),
            },
    {
        self.jobs.get(&id)
    }
}

/// Lifecycle law: submission is observed as pending until the job
/// finishes, and submission of one identifier touches no other.
pub proof fn lemma_submitted_is_pending(m: Map<u64, JobStatus>, id: u64, other: u64)
    ensures
        m.insert(id, JobStatus::Pending)[id] is Pending,
        other != id ==> (m.insert(id, JobStatus::Pending).contains_key(other) == m.contains_key(
            other,
        )),
        other != id && m.contains_key(other) ==> m.insert(id, JobStatus::Pending)[other] == m[other],
{
}

/// Lifecycle law: a job moves to a terminal state exactly once.  After
/// one finish, any further finish — another success, another failure —
/// changes nothing: the first terminal result is what every later poll
/// returns.
pub proof fn lemma_terminal_is_final(
    m: Map<u64, JobStatus>,
    id: u64,
    first: JobStatus,
    later: JobStatus,
)
    requires
        is_terminal(first),
    ensures
        finish_map(finish_map(m, id, first), id, later) == finish_map(m, id, first),
        m.contains_key(id) && m[id] is Pending ==> finish_map(m, id, first)[id] == first,
{
}

/// The lowercase hex digits of a non-negative value, most significant
/// first, no leading zeros.
pub open spec fn hex_bytes(n: int) -> Seq<u8>
    decreases n,
{
    if n <= 0 {
        seq![48u8]
    } else if n < 16 {
        seq![hex_digit_byte(n)]
    } else {
        hex_bytes(n / 16).push(hex_digit_byte(n % 16))
    }
}

/// The ASCII byte of one lowercase hex digit.
pub open spec fn hex_digit_byte(d: int) -> u8 {
    if d < 10 {
        (48 + d) as u8
    } else {
        (87 + d) as u8
    }
}

proof fn lemma_hex_bytes_ascii(n: int)
    ensures
        forall|i: int| 0 <= i < hex_bytes(n).len() ==> #[trigger] hex_bytes(n)[i] < 128,
    decreases n,
{
    if n >= 16 {
        lemma_hex_bytes_ascii(n / 16);
        assert(forall|i: int|
            0 <= i < hex_bytes(n / 16).len() ==> hex_bytes(n)[i] == hex_bytes(n / 16)[i]);
    }
}

/// Append the lowercase hex digits of `n`.
fn push_hex(out: &mut Vec<u8>, n: u64)
    ensures
        final(out)@ == old(out)@ + hex_bytes(n as int),
    decreases n,
{
    if n < 10 {
        out.push((48 + n) as u8);
        assert(out@ =~= old(out)@ + hex_bytes(n as int));
    } else if n < 16 {
        out.push((87 + n) as u8);
        assert(out@ =~= old(out)@ + hex_bytes(n as int));
    } else {
        assert(n / 16 < n) by (nonlinear_arith)
            requires
                n >= 16,
        ;
        push_hex(out, n / 16);
        let d = n % 16;
        if d < 10 {
            out.push((48 + d) as u8);
        } else {
            out.push((87 + d) as u8);
        }
        assert(out@ =~= old(out)@ + hex_bytes(n as int));
    }
}

/// Render a job identifier the way the service hands it out: lowercase
/// hex, no leading zeros.
pub fn job_id_string(id: u64) -> (r: String)
    ensures
        r@ == ascii_str_of(hex_bytes(id as int)),
{
    let mut bytes: Vec<u8> = Vec::new();
    push_hex(&mut bytes, id);
    proof {
        lemma_hex_bytes_ascii(id as int);
    }
    ascii_to_string(bytes)
}

/// The value of a lowercase hex digit character, or 16 for any other
/// character.
pub open spec fn hex_char_val(c: char) -> int {
    if 48 <= c as int && c as int <= 57 {
        c as int - 48
    } else if 97 <= c as int && c as int <= 102 {
        c as int - 87
    } else {
        16
    }
}

/// Whether `s` is a canonical job-identifier string: at least one
/// lowercase hex digit, no leading zero unless the string is "0".
pub open spec fn is_canonical_hex(s: Seq<char>) -> bool {
    &&& s.len() > 0
    &&& forall|i: int| 0 <= i < s.len() ==> hex_char_val(s[i]) < 16
    &&& (s.len() > 1 ==> s[0] != '0')
}

/// The value that a hex digit string denotes.
pub open spec fn hex_value(s: Seq<char>) -> int
    decreases s.len(),
{
    if s.len() == 0 {
        0
    } else {
        hex_value(s.drop_last()) * 16 + hex_char_val(s.last())
    }
}

proof fn lemma_hex_value_step(s: Seq<char>, i: int)
    requires
        0 <= i < s.len(),
    ensures
        hex_value(s.take(i + 1)) == hex_value(s.take(i)) * 16 + hex_char_val(s[i]),
{
    assert(s.take(i + 1).drop_last() =~= s.take(i));
    assert(s.take(i + 1).last() == s[i]);
}

proof fn lemma_hex_value_nonneg(s: Seq<char>)
    ensures
        hex_value(s) >= 0 || exists|i: int| 0 <= i < s.len() && hex_char_val(s[i]) >= 16,
    decreases s.len(),
{
    if s.len() > 0 {
        lemma_hex_value_nonneg(s.drop_last());
        if forall|i: int| 0 <= i < s.len() ==> hex_char_val(s[i]) < 16 {
            assert(forall|i: int| 0 <= i < s.len() - 1 ==> s.drop_last()[i] == s[i]);
            assert(hex_value(s.drop_last()) >= 0);
            assert(hex_char_val(s.last()) >= 0);
            assert(hex_value(s.drop_last()) * 16 >= 0) by (nonlinear_arith)
                requires
                    hex_value(s.drop_last()) >= 0,
            ;
        }
    }
}

/// Parse a job-identifier string.  Exactly the canonical hex strings
/// whose value fits in 64 bits parse; anything else is unknown and the
/// caller reports it as not found.
pub fn parse_job_id(s: &str) -> (r: Option<u64>)
    ensures
        match r {
            Some(id) => is_canonical_hex(s@) && id == hex_value(s@),
            None => !(is_canonical_hex(s@) && hex_value(s@) <= u64::MAX),
        },
{
    let n = s.unicode_len();
    if n == 0 {
        return None;
    }
    if n > 1 && s.get_char(0) == '0' {
        return None;
    }
    let mut acc: u64 = 0;
    let mut i: usize = 0;
    while i < n
        invariant
            0 <= i <= n,
            n == s@.len(),
            forall|j: int| 0 <= j < i ==> hex_char_val(s@[j]) < 16,
            acc == hex_value(s@.take(i as int)),
            hex_value(s@.take(i as int)) >= 0,
        decreases n - i,
    {
        let c = s.get_char(i);
        let code = c as u32;
        let d: u64 = if code >= 48 && code <= 57 {
            (code - 48) as u64
        } else if code >= 97 && code <= 102 {
            (code - 87) as u64
        } else {
            proof {
                assert(hex_char_val(s@[i as int]) >= 16);
            }
            return None;
        };
        proof {
            assert(d == hex_char_val(s@[i as int]));
            lemma_hex_value_step(s@, i as int);
        }
        if acc > (u64::MAX - d) / 16 {
            proof {
                assert(acc * 16 + d > u64::MAX) by (nonlinear_arith)
                    requires
                        acc > (u64::MAX - d) / 16,
                        d <= 15,
                ;
                lemma_hex_value_grows(s@, i as int);
            }
            return None;
        }
        proof {
            assert(acc * 16 + d <= u64::MAX) by (nonlinear_arith)
                requires
                    acc <= (u64::MAX - d) / 16,
                    d <= 15,
            ;
        }
        acc = acc * 16 + d;
        i = i + 1;
    }
    proof {
        assert(s@.take(n as int) =~= s@);
    }
    Some(acc)
}

proof fn lemma_hex_bytes_roundtrip(n: int)
    requires
        n >= 0,
    ensures
        is_canonical_hex(ascii_str_of(hex_bytes(n))),
        hex_value(ascii_str_of(hex_bytes(n))) == n,
        n > 0 ==> hex_bytes(n)[0] != 48,
    decreases n,
{
    let s = ascii_str_of(hex_bytes(n));
    if n < 16 {
        assert(hex_bytes(n).len() == 1);
        assert(s[0] == hex_bytes(n)[0] as char);
        assert(hex_digit_byte(n) as int == if n < 10 {
            48 + n
        } else {
            87 + n
        });
        assert(hex_digit_byte(n) as char as int == hex_digit_byte(n) as int);
        assert(hex_char_val(s[0]) == n);
        assert(s.drop_last() =~= Seq::<char>::empty());
        assert(s.last() == s[0]);
        assert(hex_value(s) == hex_value(s.drop_last()) * 16 + hex_char_val(s.last()));
    } else {
        lemma_hex_bytes_roundtrip(n / 16);
        let prefix = ascii_str_of(hex_bytes(n / 16));
        assert(s =~= prefix.push(hex_digit_byte(n % 16) as char));
        assert(s.drop_last() =~= prefix);
        assert(s.last() == hex_digit_byte(n % 16) as char);
        assert(hex_digit_byte(n % 16) as int == if n % 16 < 10 {
            48 + n % 16
        } else {
            87 + n % 16
        });
        assert(hex_digit_byte(n % 16) as char as int == hex_digit_byte(n % 16) as int);
        assert(hex_char_val(s.last()) == n % 16);
        assert(hex_value(s) == hex_value(prefix) * 16 + n % 16);
        assert(n / 16 * 16 + n % 16 == n) by {
            vstd::arithmetic::div_mod::lemma_fundamental_div_mod(n, 16);
        }
        assert(hex_bytes(n)[0] == hex_bytes(n / 16)[0]);
        assert(forall|i: int| 0 <= i < prefix.len() ==> s[i] == prefix[i]);
    }
}

/// Identifier law: rendering any job identifier and reading the string
/// back yields the identifier itself, and the rendering is canonical, so
/// polls through the textual identifier always reach the submitted job.
pub proof fn lemma_job_id_roundtrip(id: u64)
    ensures
        is_canonical_hex(ascii_str_of(hex_bytes(id as int))),
        hex_value(ascii_str_of(hex_bytes(id as int))) == id,
{
    lemma_hex_bytes_roundtrip(id as int);
}

/// Once a prefix already exceeds the 64-bit range, the whole string does.
proof fn lemma_hex_value_grows(s: Seq<char>, i: int)
    requires
        0 <= i < s.len(),
        hex_value(s.take(i + 1)) > u64::MAX,
    ensures
        !(is_canonical_hex(s) && hex_value(s) <= u64::MAX),
    decreases s.len() - i,
{
    if is_canonical_hex(s) {
        if i + 1 == s.len() {
            assert(s.take(i + 1) =~= s);
        } else {
            lemma_hex_value_step(s, i + 1);
            assert(hex_char_val(s[i + 1]) >= 0);
            assert(hex_value(s.take(i + 2)) >= hex_value(s.take(i + 1)) * 16) by (nonlinear_arith)
                requires
                    hex_value(s.take(i + 2)) == hex_value(s.take(i + 1)) * 16 + hex_char_val(
                        s[i + 1],
                    ),
                    hex_char_val(s[i + 1]) >= 0,
            ;
            assert(hex_value(s.take(i + 1)) * 16 > u64::MAX) by (nonlinear_arith)
                requires
                    hex_value(s.take(i + 1)) > u64::MAX,
            ;
            lemma_hex_value_grows(s, i + 1);
        }
    }
}

} // verus!
