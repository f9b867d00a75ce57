use vstd::prelude::*;

verus! {

/// A parsed administration command.
pub struct Cli {
    pub command: Commands,
}

/// The administration commands; each maps onto one operation of the job manager.
pub enum Commands {
    Create(CreateSubcommand),
    /// List one page of jobs; pages are numbered from 1.
    List { page: usize },
    Start { id: String },
    Stop { id: String },
    Delete { id: String },
}

/// The kinds of job that can be created.
pub enum CreateSubcommand {
    /// Poll `method_name` of the canister `canister_id` every `interval` seconds.
    Canister { canister_id: String, method_name: String, output_template: String, interval: u32 },
}

/// The first position of page `page` (numbered from 1; page 0 is taken as
/// page 1) of `page_size` jobs each.
pub open spec fn page_start(page: int, page_size: int) -> int {
    if page <= 1 {
        0
    } else {
        (page - 1) * page_size
    }
}

/// The `(offset, size)` window of the job list that page `page` shows; an
/// offset past `usize::MAX` is held there, which lists nothing.
pub fn list_range(page: usize, page_size: usize) -> (r: (usize, usize))
    ensures
        r.1 == page_size,
        r.0 == (if page_start(page as int, page_size as int) <= usize::MAX {
            page_start(page as int, page_size as int)
        } else {
            usize::MAX as int
        }),
{
    if page <= 1 || page_size == 0 {
        proof {
            assert(page_start(page as int, page_size as int) == 0) by (nonlinear_arith)
                requires
                    page <= 1 || page_size == 0,
            ;
        }
        return (0, page_size);
    }
    let k: usize = page - 1;
    if k > usize::MAX / page_size {
        proof {
            assert(k * page_size > usize::MAX) by (nonlinear_arith)
                requires
                    k > usize::MAX / page_size,
                    page_size > 0,
            ;
        }
        (usize::MAX, page_size)
    } else {
        proof {
            assert(k * page_size <= usize::MAX) by (nonlinear_arith)
                requires
                    k <= usize::MAX / page_size,
                    page_size > 0,
            ;
        }
        (k * page_size, page_size)
    }
}

} // verus!
