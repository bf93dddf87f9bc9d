//! Source files and detection results.

use vstd::prelude::*;

use crate::clone::CloneGroup;

verus! {

/// A source file to be analyzed.
#[derive(Debug, Clone)]
pub struct SourceFile {
    /// Path of the file.
    pub path: String,
    pub content: String,
    pub language: String,
}

impl SourceFile {
    pub fn new(path: String, content: String, language: String) -> (r: Self)
        ensures
            r == (SourceFile { path, content, language }),
    {
        Self { path, content, language }
    }
}

/// Number of clone instances over all groups.
pub open spec fn instance_total(groups: Seq<CloneGroup>) -> int
    decreases groups.len(),
{
    if groups.len() == 0 {
        0
    } else {
        instance_total(groups.drop_last()) + groups.last().instances@.len()
    }
}

proof fn lemma_instance_total_prefix(groups: Seq<CloneGroup>, n: int)
    requires
        0 <= n <= groups.len(),
    ensures
        0 <= instance_total(groups.take(n)) <= instance_total(groups),
    decreases groups.len(),
{
    if n < groups.len() {
        assert(groups.drop_last().take(n) =~= groups.take(n));
        lemma_instance_total_prefix(groups.drop_last(), n);
    } else {
        assert(groups.take(n) =~= groups);
        if n > 0 {
            lemma_instance_total_prefix(groups.drop_last(), n - 1);
        }
    }
}

/// Result of a clone detection run.
#[derive(Debug, Clone)]
pub struct DetectionResult {
    pub clones: Vec<CloneGroup>,
    pub files_analyzed: usize,
    pub duration_ms: u128,
}

impl DetectionResult {
    pub fn new(clones: Vec<CloneGroup>, files_analyzed: usize, duration_ms: u128) -> (r: Self)
        ensures
            r.clones@ == clones@,
            r.files_analyzed == files_analyzed,
            r.duration_ms == duration_ms,
    {
        Self { clones, files_analyzed, duration_ms }
    }

    /// Returns the total number of clone instances across all groups.
    pub fn total_clones(&self) -> (r: usize)
        requires
            instance_total(self.clones@) <= usize::MAX,
        ensures
            r == instance_total(self.clones@),
    {
        let mut total: usize = 0;
        let mut i: usize = 0;
        while i < self.clones.len()
            invariant
                i <= self.clones@.len(),
                instance_total(self.clones@) <= usize::MAX,
                total == instance_total(self.clones@.take(i as int)),
            decreases self.clones@.len() - i,
        {
            proof {
                lemma_instance_total_prefix(self.clones@, i as int + 1);
                assert(self.clones@.take(i as int + 1).drop_last() =~= self.clones@.take(i as int));
            }
            total = total + self.clones[i].instances.len();
            i = i + 1;
        }
        proof {
            assert(self.clones@.take(i as int) =~= self.clones@);
        }
        total
    }
}

/// Number of clone instances over all groups.
pub fn count_instances(groups: &[CloneGroup]) -> (r: usize)
    requires
        instance_total(groups@) <= usize::MAX,
    ensures
        r == instance_total(groups@),
{
    let mut total: usize = 0;
    let mut i: usize = 0;
    while i < groups.len()
        invariant
            i <= groups@.len(),
            instance_total(groups@) <= usize::MAX,
            total == instance_total(groups@.take(i as int)),
        decreases groups@.len() - i,
    {
        proof {
            lemma_instance_total_prefix(groups@, i as int + 1);
            assert(groups@.take(i as int + 1).drop_last() =~= groups@.take(i as int));
        }
        total = total + groups[i].instances.len();
        i = i + 1;
    }
    proof {
        assert(groups@.take(i as int) =~= groups@);
    }
    total
}

} // verus!
