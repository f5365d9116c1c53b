//! Schema migrations of the durable stores.

use crate::text::decimal;
use crate::text::push_decimal;
use vstd::prelude::*;

verus! {

/// The batch that applies one migration step and stamps the version after it, in
/// one transaction: both commit, or neither does.
pub open spec fn migration_batch(step: Seq<char>, next: nat) -> Seq<char> {
    "BEGIN;\n             "@ + step + "\n             PRAGMA user_version = "@ + decimal(next)
        + ";\n             COMMIT;"@
}

/// The first step that a database at version `current` still needs.
pub open spec fn first_pending(current: int, steps: nat) -> nat {
    if current <= 0 {
        0
    } else if current >= steps {
        steps
    } else {
        current as nat
    }
}

/// The batches that bring a database from version `current` to the newest: one
/// for each step not yet applied, in order. `steps[i]` leads from version `i` to
/// `i + 1`.
pub fn pending_migrations(current: i64, steps: &[&str]) -> (r: Vec<String>)
    ensures
        ({
            let first = first_pending(current as int, steps@.len());
            &&& r@.len() == steps@.len() - first
            &&& forall|i: int|
                0 <= i < r@.len() ==> (#[trigger] r@[i])@ == migration_batch(
                    steps@[first + i]@,
                    (first + i + 1) as nat,
                )
        }),
{
    let ghost first = first_pending(current as int, steps@.len());
    let mut out: Vec<String> = Vec::new();
    let mut i: usize = 0;
    while i < steps.len()
        invariant
            i <= steps@.len(),
            first == first_pending(current as int, steps@.len()),
            out@.len() == (if i <= first {
                0
            } else {
                i - first
            }),
            forall|j: int|
                0 <= j < out@.len() ==> (#[trigger] out@[j])@ == migration_batch(
                    steps@[first + j]@,
                    (first + j + 1) as nat,
                ),
        decreases steps@.len() - i,
    {
        let applied = current > 0 && (i as u64) < (current as u64);
        if !applied {
            let mut batch = "BEGIN;\n             ".to_string();
            batch.append(steps[i]);
            batch.append("\n             PRAGMA user_version = ");
            push_decimal(&mut batch, (i as u64) + 1);
            batch.append(";\n             COMMIT;");
            assert(batch@ =~= migration_batch(steps@[i as int]@, (i + 1) as nat));
            out.push(batch);
        }
        i = i + 1;
    }
    out
}

} // verus!
