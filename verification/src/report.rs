//! The parts of the reports that are computed from the detection results:
//! tool metadata, SARIF 2.1.0 locations and rules, and duplicated-line
//! totals. Serializing them is left to the program that prints them.

use vstd::prelude::*;

use crate::clone::{clone_type_name, ordered_lines, total_lines_of, CloneGroup, CloneType};
use crate::format::{digits, to_decimal};
use crate::source::{count_instances, instance_total};

verus! {

/// Name of the tool in every report.
pub open spec fn tool_name() -> Seq<char> {
    "Deja-vu"@
}

/// Tool metadata information.
#[derive(Debug)]
pub struct ToolMetadata {
    /// Tool name
    pub name: String,
    /// Tool version
    pub version: String,
    /// Timestamp of analysis (ISO 8601)
    pub timestamp: String,
}

impl ToolMetadata {
    /// The metadata of this tool, at the given version and time.
    pub fn new(version: String, timestamp: String) -> (r: Self)
        ensures
            r.name@ == tool_name(),
            r.version == version,
            r.timestamp == timestamp,
    {
        ToolMetadata { name: "Deja-vu".to_owned(), version, timestamp }
    }
}

/// Tool information.
#[derive(Debug)]
pub struct SarifTool {
    /// Tool driver information
    pub driver: SarifDriver,
}

/// Tool driver (the analyzer itself).
#[derive(Debug)]
pub struct SarifDriver {
    /// Tool name
    pub name: String,
    /// Tool version
    pub version: String,
    /// Semantic version
    pub semantic_version: Option<String>,
    /// Information URI
    pub information_uri: Option<String>,
    /// Reporting rules/descriptors
    pub rules: Vec<SarifRule>,
}

/// Rule descriptor.
#[derive(Debug)]
pub struct SarifRule {
    /// Rule ID
    pub id: String,
    /// Short description
    pub short_description: SarifMessage,
    /// Full description
    pub full_description: Option<SarifMessage>,
    /// Help information
    pub help: Option<SarifMessage>,
    /// Default severity level
    pub default_configuration: Option<SarifRuleConfiguration>,
}

/// Rule configuration.
#[derive(Debug)]
pub struct SarifRuleConfiguration {
    /// Default severity level
    pub level: String,
}

/// Message with text.
#[derive(Debug)]
pub struct SarifMessage {
    /// Message text
    pub text: String,
}

/// Location in source code.
#[derive(Debug)]
pub struct SarifLocation {
    /// Physical location in a file
    pub physical_location: SarifPhysicalLocation,
    /// Optional message for this location
    pub message: Option<SarifMessage>,
}

/// Physical location in a file.
#[derive(Debug)]
pub struct SarifPhysicalLocation {
    /// Artifact (file) location
    pub artifact_location: SarifArtifactLocation,
    /// Region within the file
    pub region: SarifRegion,
}

/// Artifact (file) location.
#[derive(Debug)]
pub struct SarifArtifactLocation {
    /// File URI or path
    pub uri: String,
    /// Optional URI base ID
    pub uri_base_id: Option<String>,
}

/// Region within a file.
#[derive(Debug)]
pub struct SarifRegion {
    /// Starting line (1-based)
    pub start_line: usize,
    /// Starting column (1-based)
    pub start_column: Option<usize>,
    /// Ending line (1-based)
    pub end_line: usize,
    /// Ending column (1-based)
    pub end_column: Option<usize>,
}

/// Artifact (file) metadata.
#[derive(Debug)]
pub struct SarifArtifact {
    /// Artifact location
    pub location: SarifArtifactLocation,
    /// Source language
    pub source_language: Option<String>,
}

/// The columns of a clone can be made 1-based.
pub open spec fn columns_shiftable(c: crate::clone::Clone) -> bool {
    c.start_col < usize::MAX && c.end_col < usize::MAX
}

/// A SARIF location marks the clone: the clone's file under the source
/// root, its lines, and its columns made 1-based.
pub open spec fn marks_clone(loc: SarifLocation, c: crate::clone::Clone) -> bool {
    &&& loc.physical_location.artifact_location.uri == c.file
    &&& loc.physical_location.artifact_location.uri_base_id matches Some(b) && b@ == "%SRCROOT%"@
    &&& loc.physical_location.region.start_line == c.start_line
    &&& loc.physical_location.region.end_line == c.end_line
    &&& loc.physical_location.region.start_column == Some((c.start_col + 1) as usize)
    &&& loc.physical_location.region.end_column == Some((c.end_col + 1) as usize)
}

/// The SARIF location of a clone instance, with an optional message.
pub fn sarif_location(clone: &crate::clone::Clone, message: Option<SarifMessage>) -> (r: SarifLocation)
    requires
        columns_shiftable(*clone),
    ensures
        marks_clone(r, *clone),
        r.message == message,
{
    SarifLocation {
        physical_location: SarifPhysicalLocation {
            artifact_location: SarifArtifactLocation {
                uri: clone.file.clone(),
                uri_base_id: Some("%SRCROOT%".to_owned()),
            },
            region: SarifRegion {
                start_line: clone.start_line,
                start_column: Some(clone.start_col + 1),
                end_line: clone.end_line,
                end_column: Some(clone.end_col + 1),
            },
        },
        message,
    }
}

/// The message of a related location of the group at `group_idx`
/// (counted from 0): "Duplicate code instance " and the group's number
/// counted from 1.
pub open spec fn instance_message(group_idx: nat) -> Seq<char> {
    "Duplicate code instance "@ + digits(group_idx + 1, 10)
}

/// The location carries the message that numbers the group at
/// `group_idx`.
pub open spec fn numbered(loc: SarifLocation, group_idx: nat) -> bool {
    loc.message matches Some(m) && m.text@ == instance_message(group_idx)
}

/// Every instance of the group can be given 1-based columns.
pub open spec fn group_shiftable(group: CloneGroup) -> bool {
    forall|i: int| 0 <= i < group.instances@.len() ==> columns_shiftable(#[trigger] group.instances@[i])
}

/// The primary location of a group: its first instance, without a message;
/// none for a group with no instance.
pub fn primary_location(group: &CloneGroup) -> (r: Option<SarifLocation>)
    requires
        group_shiftable(*group),
    ensures
        group.instances@.len() == 0 ==> r is None,
        group.instances@.len() > 0 ==> (r matches Some(loc) && marks_clone(
            loc,
            group.instances@[0],
        ) && loc.message is None),
{
    if group.instances.len() == 0 {
        None
    } else {
        proof {
            assert(columns_shiftable(group.instances@[0]));
        }
        Some(sarif_location(&group.instances[0], None))
    }
}

/// The related locations of the group at `group_idx`: every instance after
/// the first, in order, each with the message that numbers the group.
pub fn related_locations(group: &CloneGroup, group_idx: usize) -> (r: Vec<SarifLocation>)
    requires
        group_shiftable(*group),
        group_idx < usize::MAX,
    ensures
        group.instances@.len() == 0 ==> r@.len() == 0,
        group.instances@.len() > 0 ==> r@.len() == group.instances@.len() - 1,
        forall|k: int|
            0 <= k < r@.len() ==> marks_clone(#[trigger] r@[k], group.instances@[k + 1])
                && numbered(r@[k], group_idx as nat),
{
    let mut related: Vec<SarifLocation> = Vec::new();
    let mut i: usize = 1;
    while i < group.instances.len()
        invariant
            1 <= i,
            group.instances@.len() > 0 ==> i <= group.instances@.len(),
            group.instances@.len() == 0 ==> i == 1,
            related@.len() == i - 1,
            group_shiftable(*group),
            group_idx < usize::MAX,
            forall|k: int|
                0 <= k < related@.len() ==> marks_clone(#[trigger] related@[k], group.instances@[k + 1])
                    && numbered(related@[k], group_idx as nat),
        decreases group.instances@.len() - i,
    {
        let mut text = "Duplicate code instance ".to_owned();
        let number = to_decimal(group_idx + 1);
        text.append(number.as_str());
        proof {
            assert(columns_shiftable(group.instances@[i as int]));
        }
        let loc = sarif_location(&group.instances[i], Some(SarifMessage { text }));
        related.push(loc);
        i = i + 1;
    }
    related
}

/// The rule id of a result: "code-duplication/" and the clone type's
/// display name.
pub fn result_rule_id(clone_type: CloneType) -> (r: String)
    ensures
        r@ == "code-duplication/"@ + clone_type_name(clone_type),
{
    let mut id = "code-duplication/".to_owned();
    id.append(clone_type.as_str());
    id
}

/// A rule with all its texts.
fn rule(id: &str, short: &str, full: &str, help: &str, level: &str) -> (r: SarifRule)
    ensures
        r.id@ == id@,
        r.short_description.text@ == short@,
        r.full_description matches Some(m) && m.text@ == full@,
        r.help matches Some(m) && m.text@ == help@,
        r.default_configuration matches Some(c) && c.level@ == level@,
{
    SarifRule {
        id: id.to_owned(),
        short_description: SarifMessage { text: short.to_owned() },
        full_description: Some(SarifMessage { text: full.to_owned() }),
        help: Some(SarifMessage { text: help.to_owned() }),
        default_configuration: Some(SarifRuleConfiguration { level: level.to_owned() }),
    }
}

/// The rule reported for clones of the given type: its id, short
/// description and default level (Type-1 and Type-2 warnings, Type-3 a
/// note).
pub open spec fn describes_rule(r: SarifRule, id: Seq<char>, short: Seq<char>, level: Seq<char>) -> bool {
    &&& r.id@ == id
    &&& r.short_description.text@ == short
    &&& r.full_description is Some
    &&& r.help is Some
    &&& r.default_configuration matches Some(c) && c.level@ == level
}

/// The three rules of the report, for Type-1, Type-2 and Type-3 clones.
pub fn sarif_rules() -> (r: Vec<SarifRule>)
    ensures
        r@.len() == 3,
        describes_rule(
            r@[0],
            "code-duplication/Type1"@,
            "Type-1 clone: Exact duplicate code"@,
            "warning"@,
        ),
        describes_rule(
            r@[1],
            "code-duplication/Type2"@,
            "Type-2 clone: Structurally identical code"@,
            "warning"@,
        ),
        describes_rule(
            r@[2],
            "code-duplication/Type3"@,
            "Type-3 clone: Similar code with modifications"@,
            "note"@,
        ),
{
    let mut rules: Vec<SarifRule> = Vec::new();
    rules.push(
        rule(
            "code-duplication/Type1",
            "Type-1 clone: Exact duplicate code",
            "Identical code fragments except for variations in whitespace, layout, and comments.",
            "Consider extracting the duplicated code into a shared function or module.",
            "warning",
        ),
    );
    rules.push(
        rule(
            "code-duplication/Type2",
            "Type-2 clone: Structurally identical code",
            "Structurally/syntactically identical fragments except for variations in identifiers, literals, types, layout, and comments.",
            "Consider parameterizing the differences and extracting into a shared function.",
            "warning",
        ),
    );
    rules.push(
        rule(
            "code-duplication/Type3",
            "Type-3 clone: Similar code with modifications",
            "Copied fragments with further modifications such as changed, added, or removed statements.",
            "Review for refactoring opportunities to reduce code duplication.",
            "note",
        ),
    );
    rules
}

/// The tool section of a SARIF report for the given version.
pub fn sarif_tool(version: String) -> (r: SarifTool)
    ensures
        r.driver.name@ == tool_name(),
        r.driver.version == version,
        r.driver.semantic_version matches Some(v) && v == version,
        r.driver.information_uri matches Some(u) && u@ == "https://github.com/stvnksslr/Deja-vu"@,
        r.driver.rules@.len() == 3,
        describes_rule(
            r.driver.rules@[0],
            "code-duplication/Type1"@,
            "Type-1 clone: Exact duplicate code"@,
            "warning"@,
        ),
        describes_rule(
            r.driver.rules@[1],
            "code-duplication/Type2"@,
            "Type-2 clone: Structurally identical code"@,
            "warning"@,
        ),
        describes_rule(
            r.driver.rules@[2],
            "code-duplication/Type3"@,
            "Type-3 clone: Similar code with modifications"@,
            "note"@,
        ),
{
    let semantic = version.clone();
    SarifTool {
        driver: SarifDriver {
            name: "Deja-vu".to_owned(),
            version,
            semantic_version: Some(semantic),
            information_uri: Some("https://github.com/stvnksslr/Deja-vu".to_owned()),
            rules: sarif_rules(),
        },
    }
}

/// Duplicated lines over the groups: the sum of every instance's line
/// count.
pub open spec fn duplicated_lines_of(groups: Seq<CloneGroup>) -> int
    decreases groups.len(),
{
    if groups.len() == 0 {
        0
    } else {
        duplicated_lines_of(groups.drop_last()) + total_lines_of(groups.last().instances@)
    }
}

/// Every instance of every group spans a well-ordered range of lines.
pub open spec fn all_ordered(groups: Seq<CloneGroup>) -> bool {
    forall|i: int| 0 <= i < groups.len() ==> ordered_lines(#[trigger] groups[i].instances@)
}

proof fn lemma_duplicated_lines_prefix(groups: Seq<CloneGroup>, n: int)
    requires
        all_ordered(groups),
        0 <= n <= groups.len(),
    ensures
        0 <= duplicated_lines_of(groups.take(n)) <= duplicated_lines_of(groups),
        n < groups.len() ==> total_lines_of(groups[n].instances@) <= duplicated_lines_of(groups),
    decreases groups.len(),
{
    if groups.len() > 0 {
        let p = groups.drop_last();
        assert(all_ordered(p)) by {
            assert forall|i: int| 0 <= i < p.len() implies ordered_lines(#[trigger] p[i].instances@) by {
                assert(p[i] == groups[i]);
            }
        }
        lemma_total_lines_nonneg(groups.last().instances@);
        assert(ordered_lines(groups[groups.len() - 1].instances@));
        if n < groups.len() {
            assert(p.take(n) =~= groups.take(n));
            lemma_duplicated_lines_prefix(p, n);
            if n < groups.len() - 1 {
                assert(p[n] == groups[n]);
            } else {
                lemma_duplicated_lines_prefix(p, p.len() as int);
                assert(p.take(p.len() as int) =~= p);
            }
        } else {
            assert(groups.take(n) =~= groups);
            lemma_duplicated_lines_prefix(p, p.len() as int);
        }
    }
}

proof fn lemma_total_lines_nonneg(instances: Seq<crate::clone::Clone>)
    requires
        ordered_lines(instances),
    ensures
        total_lines_of(instances) >= 0,
    decreases instances.len(),
{
    if instances.len() > 0 {
        let p = instances.drop_last();
        assert(ordered_lines(p)) by {
            assert forall|i: int| 0 <= i < p.len() implies #[trigger] p[i].start_line <= p[i].end_line by {
                assert(p[i] == instances[i]);
            }
        }
        lemma_total_lines_nonneg(p);
        assert(instances[instances.len() - 1].start_line <= instances[instances.len() - 1].end_line);
    }
}

/// Estimated total duplicated lines: the line counts of all instances of
/// all groups, added up.
pub fn duplicated_lines(groups: &[CloneGroup]) -> (r: usize)
    requires
        all_ordered(groups@),
        duplicated_lines_of(groups@) <= usize::MAX,
    ensures
        r == duplicated_lines_of(groups@),
{
    let mut total: usize = 0;
    let mut i: usize = 0;
    while i < groups.len()
        invariant
            i <= groups@.len(),
            all_ordered(groups@),
            duplicated_lines_of(groups@) <= usize::MAX,
            total == duplicated_lines_of(groups@.take(i as int)),
        decreases groups@.len() - i,
    {
        proof {
            lemma_duplicated_lines_prefix(groups@, i as int + 1);
            assert(groups@.take(i as int + 1).drop_last() =~= groups@.take(i as int));
            assert(groups@.take(i as int + 1).last() == groups@[i as int]);
            assert(ordered_lines(groups@[i as int].instances@));
        }
        let lines = groups[i].total_lines();
        total = total + lines;
        i = i + 1;
    }
    proof {
        assert(groups@.take(i as int) =~= groups@);
    }
    total
}

/// The counts of a JSON summary: files analyzed, clone instances, clone
/// groups and duplicated lines.
#[derive(Debug, Clone, Copy, PartialEq, Eq, Structural)]
pub struct SummaryCounts {
    pub files_analyzed: usize,
    pub total_clone_instances: usize,
    pub clone_groups_count: usize,
    pub duplicated_lines: usize,
}

/// The summary counts of the clone groups found in `files_analyzed` files:
/// every instance of every group counted once, and every instance's lines.
pub fn summary_counts(groups: &[CloneGroup], files_analyzed: usize) -> (r: SummaryCounts)
    requires
        all_ordered(groups@),
        duplicated_lines_of(groups@) <= usize::MAX,
        instance_total(groups@) <= usize::MAX,
    ensures
        r == (SummaryCounts {
            files_analyzed,
            total_clone_instances: instance_total(groups@) as usize,
            clone_groups_count: groups@.len() as usize,
            duplicated_lines: duplicated_lines_of(groups@) as usize,
        }),
{
    SummaryCounts {
        files_analyzed,
        total_clone_instances: count_instances(groups),
        clone_groups_count: groups.len(),
        duplicated_lines: duplicated_lines(groups),
    }
}

/// The SARIF version the report follows.
pub fn sarif_version() -> (r: &'static str)
    ensures
        r@ == "2.1.0"@,
{
    "2.1.0"
}

/// The schema of the SARIF report.
pub fn sarif_schema() -> (r: &'static str)
    ensures
        r@ == "https://json.schemastore.org/sarif-2.1.0.json"@,
{
    "https://json.schemastore.org/sarif-2.1.0.json"
}

/// The parts of a SARIF result that do not depend on the group's
/// similarity score: the index of the group it reports, its rule, level,
/// location and related locations.
#[derive(Debug)]
pub struct SarifResultCore {
    pub group_index: usize,
    pub rule_id: String,
    pub level: String,
    pub locations: Vec<SarifLocation>,
    pub related_locations: Vec<SarifLocation>,
}

/// A result reports the group at `idx`: the rule of its clone type, level
/// "warning", its first instance as the one location, and every later
/// instance as a related location numbered with the group.
pub open spec fn reports_group(r: SarifResultCore, group: CloneGroup, idx: int) -> bool {
    &&& r.group_index == idx
    &&& r.rule_id@ == "code-duplication/"@ + clone_type_name(group.clone_type)
    &&& r.level@ == "warning"@
    &&& r.locations@.len() == 1
    &&& marks_clone(r.locations@[0], group.instances@[0])
    &&& r.locations@[0].message is None
    &&& r.related_locations@.len() == group.instances@.len() - 1
    &&& forall|k: int|
        0 <= k < r.related_locations@.len() ==> marks_clone(
            #[trigger] r.related_locations@[k],
            group.instances@[k + 1],
        ) && numbered(r.related_locations@[k], idx as nat)
}

/// The indices, in order, of the first `n` groups that have an instance.
pub open spec fn reported_indices(groups: Seq<CloneGroup>, n: int) -> Seq<int>
    decreases n,
{
    if n <= 0 {
        Seq::<int>::empty()
    } else {
        let rest = reported_indices(groups, n - 1);
        if groups[n - 1].instances@.len() > 0 {
            rest.push(n - 1)
        } else {
            rest
        }
    }
}

/// The reported indices lie below `n`.
proof fn lemma_reported_indices_range(groups: Seq<CloneGroup>, n: int)
    ensures
        forall|j: int|
            0 <= j < reported_indices(groups, n).len() ==> 0 <= #[trigger] reported_indices(groups, n)[j]
                < n,
    decreases n,
{
    if n > 0 {
        lemma_reported_indices_range(groups, n - 1);
        let rest = reported_indices(groups, n - 1);
        assert forall|j: int| 0 <= j < reported_indices(groups, n).len() implies 0
            <= #[trigger] reported_indices(groups, n)[j] < n by {
            if j < rest.len() {
                assert(reported_indices(groups, n)[j] == rest[j]);
            }
        }
    }
}

/// The results of a SARIF report, without their scores: one for every
/// group that has an instance, in order.
pub fn sarif_results(groups: &[CloneGroup]) -> (r: Vec<SarifResultCore>)
    requires
        groups@.len() < usize::MAX,
        forall|i: int| 0 <= i < groups@.len() ==> group_shiftable(#[trigger] groups@[i]),
    ensures
        r@.len() == reported_indices(groups@, groups@.len() as int).len(),
        forall|j: int|
            0 <= j < r@.len() ==> reports_group(
                #[trigger] r@[j],
                groups@[reported_indices(groups@, groups@.len() as int)[j]],
                reported_indices(groups@, groups@.len() as int)[j],
            ),
{
    let mut results: Vec<SarifResultCore> = Vec::new();
    let mut i: usize = 0;
    while i < groups.len()
        invariant
            i <= groups@.len(),
            groups@.len() < usize::MAX,
            forall|k: int| 0 <= k < groups@.len() ==> group_shiftable(#[trigger] groups@[k]),
            results@.len() == reported_indices(groups@, i as int).len(),
            forall|j: int|
                0 <= j < results@.len() ==> reports_group(
                    #[trigger] results@[j],
                    groups@[reported_indices(groups@, i as int)[j]],
                    reported_indices(groups@, i as int)[j],
                ),
        decreases groups@.len() - i,
    {
        let group = &groups[i];
        proof {
            lemma_reported_indices_range(groups@, i as int);
        }
        match primary_location(group) {
            Some(location) => {
                let related = related_locations(group, i);
                let core = SarifResultCore {
                    group_index: i,
                    rule_id: result_rule_id(group.clone_type),
                    level: "warning".to_owned(),
                    locations: vec![location],
                    related_locations: related,
                };
                proof {
                    assert(core.locations@ =~= seq![location]);
                    assert(reports_group(core, groups@[i as int], i as int));
                }
                results.push(core);
                proof {
                    assert(reported_indices(groups@, i as int + 1) == reported_indices(groups@, i as int).push(
                        i as int,
                    ));
                }
            },
            None => {
                proof {
                    assert(reported_indices(groups@, i as int + 1) == reported_indices(groups@, i as int));
                }
            },
        }
        i = i + 1;
    }
    results
}

} // verus!
