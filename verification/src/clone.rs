//! Core data structures for representing code clones.

use vstd::prelude::*;

use crate::format::{digits, to_decimal};

verus! {

/// Types of code clones based on similarity.
#[derive(Debug, Clone, Copy, PartialEq, Eq, Hash, Structural)]
pub enum CloneType {
    /// Type-1: Exact copies (ignoring whitespace and comments)
    Type1,
    /// Type-2: Syntactically identical (with renamed identifiers)
    Type2,
    /// Type-3: Copies with modifications (statements added/removed)
    Type3,
    /// Type-4: Semantically similar but syntactically different
    Type4,
}

/// The display name of a clone type.
pub open spec fn clone_type_name(t: CloneType) -> Seq<char> {
    match t {
        CloneType::Type1 => "Type-1"@,
        CloneType::Type2 => "Type-2"@,
        CloneType::Type3 => "Type-3"@,
        CloneType::Type4 => "Type-4"@,
    }
}

impl CloneType {
    pub fn as_str(&self) -> (r: &str)
        ensures
            r@ == clone_type_name(*self),
    {
        match self {
            CloneType::Type1 => "Type-1",
            CloneType::Type2 => "Type-2",
            CloneType::Type3 => "Type-3",
            CloneType::Type4 => "Type-4",
        }
    }
}

/// A single instance of a code clone: where it is, and its text.
#[derive(Debug, Clone)]
pub struct Clone {
    /// Path of the file that holds the clone.
    pub file: String,
    pub start_line: usize,
    pub end_line: usize,
    pub start_col: usize,
    pub end_col: usize,
    /// The actual code content
    pub content: String,
}

/// Number of lines from `start_line` to `end_line`, both included.
pub open spec fn lines_spanned(start_line: int, end_line: int) -> int {
    end_line - start_line + 1
}

impl Clone {
    pub fn new(
        file: String,
        start_line: usize,
        end_line: usize,
        start_col: usize,
        end_col: usize,
        content: String,
    ) -> (r: Self)
        ensures
            r == (Clone { file, start_line, end_line, start_col, end_col, content }),
    {
        Self { file, start_line, end_line, start_col, end_col, content }
    }

    /// Returns the number of lines in this clone.
    pub fn line_count(&self) -> (r: usize)
        requires
            self.start_line <= self.end_line,
            self.end_line - self.start_line < usize::MAX,
        ensures
            r == lines_spanned(self.start_line as int, self.end_line as int),
    {
        self.end_line - self.start_line + 1
    }
}

/// How a clone describes itself: its file, its range of lines and how many
/// lines that is, as in `Clone(file='a.py', lines=3-7, 5 lines)`.
pub open spec fn clone_description(c: Clone) -> Seq<char> {
    "Clone(file='"@ + c.file@ + "', lines="@ + digits(c.start_line as nat, 10) + "-"@ + digits(
        c.end_line as nat,
        10,
    ) + ", "@ + digits(lines_spanned(c.start_line as int, c.end_line as int) as nat, 10)
        + " lines)"@
}

impl Clone {
    /// A one-line description of the clone: its file, its range of lines
    /// and how many lines that is.
    pub fn describe(&self) -> (r: String)
        requires
            self.start_line <= self.end_line,
            self.end_line - self.start_line < usize::MAX,
        ensures
            r@ == clone_description(*self),
    {
        let mut r = "Clone(file='".to_owned();
        r.append(self.file.as_str());
        r.append("', lines=");
        let start = to_decimal(self.start_line);
        r.append(start.as_str());
        r.append("-");
        let end = to_decimal(self.end_line);
        r.append(end.as_str());
        r.append(", ");
        let count = to_decimal(self.line_count());
        r.append(count.as_str());
        r.append(" lines)");
        r
    }
}

/// Total of the line counts of the clones.
pub open spec fn total_lines_of(instances: Seq<Clone>) -> int
    decreases instances.len(),
{
    if instances.len() == 0 {
        0
    } else {
        total_lines_of(instances.drop_last()) + lines_spanned(
            instances.last().start_line as int,
            instances.last().end_line as int,
        )
    }
}

/// Every clone spans a well-ordered range of lines.
pub open spec fn ordered_lines(instances: Seq<Clone>) -> bool {
    forall|i: int| 0 <= i < instances.len() ==> #[trigger] instances[i].start_line
        <= instances[i].end_line
}

proof fn lemma_total_lines_monotone(instances: Seq<Clone>, n: int)
    requires
        ordered_lines(instances),
        0 <= n <= instances.len(),
    ensures
        0 <= total_lines_of(instances.take(n)) <= total_lines_of(instances),
    decreases instances.len(),
{
    if n < instances.len() {
        assert(instances.drop_last().take(n) =~= instances.take(n));
        assert(ordered_lines(instances.drop_last())) by {
            assert forall|i: int| 0 <= i < instances.drop_last().len() implies #[trigger] instances.drop_last()[i].start_line
                <= instances.drop_last()[i].end_line by {
                assert(instances.drop_last()[i] == instances[i]);
            }
        }
        lemma_total_lines_monotone(instances.drop_last(), n);
        assert(instances.last() == instances[instances.len() - 1]);
    } else {
        assert(instances.take(n) =~= instances);
        if n > 0 {
            assert(ordered_lines(instances.drop_last())) by {
                assert forall|i: int| 0 <= i < instances.drop_last().len() implies #[trigger] instances.drop_last()[i].start_line
                    <= instances.drop_last()[i].end_line by {
                    assert(instances.drop_last()[i] == instances[i]);
                }
            }
            lemma_total_lines_monotone(instances.drop_last(), n - 1);
            assert(instances.drop_last().take(n - 1) =~= instances.drop_last());
            assert(instances.last() == instances[instances.len() - 1]);
        }
    }
}

/// A group of related code clones.
///
/// Its similarity score is a real number and is kept beside the group by
/// the code that reports it.
#[derive(Debug, Clone)]
pub struct CloneGroup {
    pub clone_type: CloneType,
    pub instances: Vec<Clone>,
    /// Hash or signature for this clone group
    pub signature: String,
}

impl CloneGroup {
    pub fn new(clone_type: CloneType, signature: String) -> (r: Self)
        ensures
            r.clone_type == clone_type,
            r.signature == signature,
            r.instances@ == Seq::<Clone>::empty(),
    {
        Self { clone_type, instances: Vec::new(), signature }
    }

    pub fn add_instance(&mut self, clone: Clone)
        ensures
            final(self).clone_type == old(self).clone_type,
            final(self).signature == old(self).signature,
            final(self).instances@ == old(self).instances@.push(clone),
    {
        self.instances.push(clone);
    }

    /// Returns the number of clone instances in this group.
    pub fn size(&self) -> (r: usize)
        ensures
            r == self.instances@.len(),
    {
        self.instances.len()
    }

    /// Returns the total number of lines across all instances; the average
    /// number of lines is this total divided by `size()`.
    pub fn total_lines(&self) -> (r: usize)
        requires
            ordered_lines(self.instances@),
            total_lines_of(self.instances@) <= usize::MAX,
        ensures
            r == total_lines_of(self.instances@),
    {
        let mut total: usize = 0;
        let mut i: usize = 0;
        while i < self.instances.len()
            invariant
                i <= self.instances@.len(),
                ordered_lines(self.instances@),
                total_lines_of(self.instances@) <= usize::MAX,
                total == total_lines_of(self.instances@.take(i as int)),
            decreases self.instances@.len() - i,
        {
            proof {
                lemma_total_lines_monotone(self.instances@, i as int + 1);
                let t = self.instances@.take(i as int + 1);
                assert(t.drop_last() =~= self.instances@.take(i as int));
                assert(t.last() == self.instances@[i as int]);
                assert(self.instances@[i as int].start_line <= self.instances@[i as int].end_line);
            }
            let c = self.instances[i].line_count();
            total = total + c;
            i = i + 1;
        }
        proof {
            assert(self.instances@.take(i as int) =~= self.instances@);
        }
        total
    }
}

} // verus!
