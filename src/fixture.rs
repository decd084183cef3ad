use vstd::prelude::*;

use crate::text::{decimal_chars, joined, join_path, push_decimal};
use crate::units::{formatted, Bytes};

verus! {

/// Bytes written to a fixture file per write call.
pub const FIXTURE_CHUNK_SIZE: usize = 1024 * 250;

/// The byte that fills every fixture file (ASCII `a`).
pub const FIXTURE_FILL_BYTE: u8 = 97;

/// The largest fixture that may be generated: 5 GiB.
pub const MAX_FIXTURE_BYTES: u64 = 5 * 1024 * 1024 * 1024;

/// Name of the fixture file of `n` bytes: formatted magnitude, lower-case unit, `.bin`.
pub open spec fn fixture_name_chars(n: nat) -> Seq<char> {
    decimal_chars(formatted(n).0) + formatted(n).1.spec_lower_abbreviation() + seq![
        '.',
        'b',
        'i',
        'n',
    ]
}

/// How a fixture of a given size is written: `full_chunks` writes of a whole chunk,
/// then one write of the first `tail` bytes of a chunk.
#[derive(Debug, Clone, Copy, PartialEq, Eq, Structural)]
pub struct WritePlan {
    pub full_chunks: usize,
    pub tail: usize,
}

impl WritePlan {
    /// Number of bytes that the plan writes.
    pub open spec fn total(self) -> nat {
        (self.full_chunks * FIXTURE_CHUNK_SIZE + self.tail) as nat
    }
}

/// What generating a fixture of `n` bytes does: nothing where its file exists, else
/// the writes that fill a new file with exactly `n` bytes.
pub open spec fn planned_writes(n: nat, exists: bool) -> Option<WritePlan> {
    if exists {
        None
    } else {
        Some(
            WritePlan {
                full_chunks: (n / FIXTURE_CHUNK_SIZE as nat) as usize,
                tail: (n % FIXTURE_CHUNK_SIZE as nat) as usize,
            },
        )
    }
}

/// Length of the fixture file after generation, given the length it had, if it existed.
pub open spec fn length_after_generation(n: nat, existing: Option<nat>) -> nat {
    match planned_writes(n, existing is Some) {
        Some(plan) => plan.total(),
        None => existing->0,
    }
}

pub fn fixture_file_name(size: &Bytes) -> (r: String)
    ensures
        r@ == fixture_name_chars(size@),
{
    let (value, unit) = size.format_bytes();
    let mut r = String::new();
    push_decimal(&mut r, value);
    r.append(unit.lower_abbreviation());
    r.append(".bin");
    proof {
        reveal_strlit(".bin");
    }
    assert(r@ =~= fixture_name_chars(size@));
    r
}

pub fn fixture_path(fixtures_dir: &str, size: &Bytes) -> (r: String)
    ensures
        r@ == joined(fixtures_dir@, fixture_name_chars(size@)),
{
    let name = fixture_file_name(size);
    join_path(fixtures_dir, name.as_str())
}

/// Whether a fixture of this size may be generated.
pub fn within_fixture_limit(size: &Bytes) -> (r: bool)
    ensures
        r == (size@ <= MAX_FIXTURE_BYTES),
{
    size.to_bytes() as u64 <= MAX_FIXTURE_BYTES
}

/// The writes that generating a fixture of `size` performs, given whether its file
/// already exists.
pub fn fixture_write_plan(size: &Bytes, exists: bool) -> (r: Option<WritePlan>)
    requires
        size@ <= MAX_FIXTURE_BYTES,
    ensures
        r == planned_writes(size@, exists),
        exists <==> r is None,
        r matches Some(plan) ==> plan.total() == size@ && plan.tail < FIXTURE_CHUNK_SIZE,
{
    if exists {
        return None;
    }
    let total = size.to_bytes();
    let plan = WritePlan { full_chunks: total / FIXTURE_CHUNK_SIZE, tail: total % FIXTURE_CHUNK_SIZE };
    proof {
        vstd::arithmetic::div_mod::lemma_fundamental_div_mod(
            total as int,
            FIXTURE_CHUNK_SIZE as int,
        );
    }
    Some(plan)
}

/// One chunk of fixture content: every byte is the fill byte.
pub fn fixture_chunk() -> (r: Vec<u8>)
    ensures
        r@.len() == FIXTURE_CHUNK_SIZE,
        forall|i: int| 0 <= i < r@.len() ==> #[trigger] r@[i] == FIXTURE_FILL_BYTE,
{
    vec![FIXTURE_FILL_BYTE; FIXTURE_CHUNK_SIZE]
}

/// Generating a fixture twice performs one write pass: the second run writes nothing,
/// and the file holds exactly the requested number of bytes after each run.
pub proof fn lemma_generation_idempotent(n: usize)
    requires
        n <= MAX_FIXTURE_BYTES,
    ensures
        planned_writes(n as nat, false) is Some,
        planned_writes(n as nat, true) is None,
        length_after_generation(n as nat, None) == n,
        length_after_generation(n as nat, Some(length_after_generation(n as nat, None))) == n,
{
    vstd::arithmetic::div_mod::lemma_fundamental_div_mod(n as int, FIXTURE_CHUNK_SIZE as int);
}

} // verus!
