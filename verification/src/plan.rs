//! The planner: a pure transform from a validated manifest to the ordered
//! list of low-level actions that the executor applies, laid out along the
//! install lifecycle.

use vstd::prelude::*;

verus! {

use crate::errors::AprilError;
use crate::manifest::AprilFileOperation;
use crate::manifest::AprilFileOperationPhase;
use crate::manifest::AprilFileOperationType;
use crate::manifest::AprilPackage;
use crate::manifest::AprilPackageScriptOverrides;
use crate::strutil::spec_dec_chars;
use crate::strutil::u64_to_string;
use vstd::string::StrSliceExecFns;
use vstd::string::StringExecFns;

/// How a patch is applied to a field or script: appended, replacing what
/// is there, or removing it.
#[derive(Debug, Clone, Copy, PartialEq, Eq, Structural)]
pub enum AprilActionType {
    Append,
    Replace,
    Remove,
}

/// One planned action on the package.
#[derive(Debug)]
pub enum AprilAction {
    /// Run pre-configuration before any package-manager command.
    PreconfigPackage,
    /// Have the package manager unpack the package.
    UnpackPackage,
    /// Have the package manager extract the payload tree.
    ExtractPackage,
    /// Have the package manager configure the package.
    ConfigurePackage,
    /// Have the package manager install (unpack and configure).
    InstallPackage,
    /// Patch a control field.
    PatchField { field: String, value: String, action: AprilActionType },
    /// Clear all control paragraphs and maintainer scripts.
    DropControlData,
    /// Install a raw control paragraph verbatim.
    PutControlChunk { data: String },
    /// Patch a maintainer script (or the conffiles list).
    PatchScript { file: String, content: Option<String>, action: AprilActionType },
    /// Apply a file operation to an installed path.
    PatchFile { path: String, action: AprilFileOperationType },
}

/// The mathematical shape of a file operation.
pub enum SpecFileOp {
    Remove,
    Move(Seq<char>),
    Copy(Seq<char>),
    Link(Seq<char>),
    Patch(Seq<char>),
    BinaryPatch(Seq<char>),
    Divert(Seq<char>),
    Track,
    Overwrite(Seq<char>),
    Add(Seq<char>),
    Chmod(u16),
    Mkdir,
}

impl View for AprilFileOperationType {
    type V = SpecFileOp;

    open spec fn view(&self) -> SpecFileOp {
        match self {
            AprilFileOperationType::Remove => SpecFileOp::Remove,
            AprilFileOperationType::Move(p) => SpecFileOp::Move(p@),
            AprilFileOperationType::Copy(p) => SpecFileOp::Copy(p@),
            AprilFileOperationType::Link(p) => SpecFileOp::Link(p@),
            AprilFileOperationType::Patch(u) => SpecFileOp::Patch(u@),
            AprilFileOperationType::BinaryPatch(u) => SpecFileOp::BinaryPatch(u@),
            AprilFileOperationType::Divert(p) => SpecFileOp::Divert(p@),
            AprilFileOperationType::Track => SpecFileOp::Track,
            AprilFileOperationType::Overwrite(u) => SpecFileOp::Overwrite(u@),
            AprilFileOperationType::Add(u) => SpecFileOp::Add(u@),
            AprilFileOperationType::Chmod(m) => SpecFileOp::Chmod(*m),
            AprilFileOperationType::Mkdir => SpecFileOp::Mkdir,
        }
    }
}

/// The mathematical shape of a planned action.
pub enum SpecAction {
    Preconfig,
    Unpack,
    Extract,
    Configure,
    Install,
    PatchField { field: Seq<char>, value: Seq<char>, action: AprilActionType },
    DropControlData,
    PutControlChunk { data: Seq<char> },
    PatchScript { file: Seq<char>, content: Option<Seq<char>>, action: AprilActionType },
    PatchFile { path: Seq<char>, op: SpecFileOp },
}

impl View for AprilAction {
    type V = SpecAction;

    open spec fn view(&self) -> SpecAction {
        match self {
            AprilAction::PreconfigPackage => SpecAction::Preconfig,
            AprilAction::UnpackPackage => SpecAction::Unpack,
            AprilAction::ExtractPackage => SpecAction::Extract,
            AprilAction::ConfigurePackage => SpecAction::Configure,
            AprilAction::InstallPackage => SpecAction::Install,
            AprilAction::PatchField { field, value, action } => SpecAction::PatchField {
                field: field@,
                value: value@,
                action: *action,
            },
            AprilAction::DropControlData => SpecAction::DropControlData,
            AprilAction::PutControlChunk { data } => SpecAction::PutControlChunk { data: data@ },
            AprilAction::PatchScript { file, content, action } => SpecAction::PatchScript {
                file: file@,
                content: match content {
                    Some(c) => Some(c@),
                    None => None,
                },
                action: *action,
            },
            AprilAction::PatchFile { path, action } => SpecAction::PatchFile {
                path: path@,
                op: action@,
            },
        }
    }
}

/// The script patch for one file: an empty body removes the script, a
/// non-empty one replaces it.
pub open spec fn spec_script_patch(file: Seq<char>, body: Seq<char>) -> SpecAction {
    if body.len() == 0 {
        SpecAction::PatchScript { file, content: None, action: AprilActionType::Remove }
    } else {
        SpecAction::PatchScript { file, content: Some(body), action: AprilActionType::Replace }
    }
}

/// The actions for one script override, none if it is absent.
pub open spec fn spec_opt_script(file: Seq<char>, body: Option<String>) -> Seq<SpecAction> {
    match body {
        None => Seq::empty(),
        Some(b) => seq![spec_script_patch(file, b@)],
    }
}

/// The field patches one list entry expands to: a `+` or `-` modifier
/// appends or removes the rest, any other non-empty entry appends itself,
/// and an empty entry is skipped.
pub open spec fn spec_list_item(field: Seq<char>, item: Seq<char>) -> Seq<SpecAction> {
    if item.len() == 0 {
        Seq::empty()
    } else if item[0] == '+' {
        seq![
            SpecAction::PatchField {
                field,
                value: item.skip(1),
                action: AprilActionType::Append,
            },
        ]
    } else if item[0] == '-' {
        seq![
            SpecAction::PatchField {
                field,
                value: item.skip(1),
                action: AprilActionType::Remove,
            },
        ]
    } else {
        seq![SpecAction::PatchField { field, value: item, action: AprilActionType::Append }]
    }
}

pub open spec fn spec_expand_list(field: Seq<char>, items: Seq<Seq<char>>) -> Seq<SpecAction>
    decreases items.len(),
{
    if items.len() == 0 {
        Seq::empty()
    } else {
        spec_list_item(field, items[0]) + spec_expand_list(field, items.skip(1))
    }
}

/// The actions for a list-valued override: absent gives none, an empty
/// list clears the field, and a non-empty list expands entry by entry.
pub open spec fn spec_list_field(field: Seq<char>, values: Option<Vec<String>>) -> Seq<
    SpecAction,
> {
    match values {
        None => Seq::empty(),
        Some(v) => if v@.len() == 0 {
            seq![
                SpecAction::PatchField {
                    field,
                    value: Seq::empty(),
                    action: AprilActionType::Replace,
                },
            ]
        } else {
            spec_expand_list(field, v@.map_values(|s: String| s@))
        },
    }
}

/// The action for a scalar override: absent gives none, present replaces
/// the field with the value (an empty value clears it at apply time).
pub open spec fn spec_scalar_field(field: Seq<char>, value: Option<String>) -> Seq<SpecAction> {
    match value {
        None => Seq::empty(),
        Some(v) => seq![
            SpecAction::PatchField { field, value: v@, action: AprilActionType::Replace },
        ],
    }
}

/// The later entries of a newline join: each preceded by a newline.
pub open spec fn spec_join_rest(items: Seq<Seq<char>>) -> Seq<char>
    decreases items.len(),
{
    if items.len() == 0 {
        Seq::empty()
    } else {
        seq!['\n'] + items[0] + spec_join_rest(items.skip(1))
    }
}

/// The conffiles override joined with newlines.
pub open spec fn spec_join_nl(items: Seq<Seq<char>>) -> Seq<char> {
    if items.len() == 0 {
        Seq::empty()
    } else {
        items[0] + spec_join_rest(items.skip(1))
    }
}

/// The actions for the conffiles override: the entries joined by newlines
/// and written as the `conffiles` control file, removed when the result is
/// empty.
pub open spec fn spec_conffiles(values: Option<Vec<String>>) -> Seq<SpecAction> {
    match values {
        None => Seq::empty(),
        Some(v) => seq![
            spec_script_patch("conffiles"@, spec_join_nl(v@.map_values(|s: String| s@))),
        ],
    }
}

/// The file operations of one phase, in document order.
pub open spec fn spec_files_phase(
    items: Seq<(String, AprilFileOperation)>,
    phase: AprilFileOperationPhase,
) -> Seq<SpecAction>
    decreases items.len(),
{
    if items.len() == 0 {
        Seq::empty()
    } else {
        (if items[0].1.phase == phase {
            seq![
                SpecAction::PatchFile { path: items[0].0@, op: items[0].1.operation@ },
            ]
        } else {
            Seq::empty()
        }) + spec_files_phase(items.skip(1), phase)
    }
}

/// The file operations of one phase for an optional file map.
pub open spec fn spec_opt_files_phase(
    files: Option<Vec<(String, AprilFileOperation)>>,
    phase: AprilFileOperationPhase,
) -> Seq<SpecAction> {
    match files {
        None => Seq::empty(),
        Some(v) => spec_files_phase(v@, phase),
    }
}

/// The `Essential` override rendered as `yes`/`no`.
pub open spec fn spec_essential_field(value: Option<bool>) -> Seq<SpecAction> {
    match value {
        None => Seq::empty(),
        Some(b) => seq![
            SpecAction::PatchField {
                field: "Essential"@,
                value: if b {
                    "yes"@
                } else {
                    "no"@
                },
                action: AprilActionType::Replace,
            },
        ],
    }
}

/// The `Installed-Size` override rendered in decimal.
pub open spec fn spec_installed_size_field(value: Option<u64>) -> Seq<SpecAction> {
    match value {
        None => Seq::empty(),
        Some(n) => seq![
            SpecAction::PatchField {
                field: "Installed-Size"@,
                value: spec_dec_chars(n as int),
                action: AprilActionType::Replace,
            },
        ],
    }
}

/// The script patches that must run before the pre-configure step:
/// `preinst`, `prerm`, `triggers`, in that order.
pub open spec fn spec_pre_scripts(scripts: &Option<AprilPackageScriptOverrides>) -> Seq<
    SpecAction,
> {
    match scripts {
        None => Seq::empty(),
        Some(s) => spec_opt_script("preinst"@, s.preinst) + spec_opt_script("prerm"@, s.prerm)
            + spec_opt_script("triggers"@, s.triggers),
    }
}

/// The script patches that run after extraction: `postinst`, `postrm`.
pub open spec fn spec_post_scripts(scripts: &Option<AprilPackageScriptOverrides>) -> Seq<
    SpecAction,
> {
    match scripts {
        None => Seq::empty(),
        Some(s) => spec_opt_script("postinst"@, s.postinst) + spec_opt_script("postrm"@, s.postrm),
    }
}

/// The whole plan for a manifest, in lifecycle order: an optional control
/// wipe, the pre-unpack script patches, the field edits needed before
/// pre-configuration, the pre-configure marker, the conffiles patch, the
/// extract marker, the remaining field edits, the unpack-phase file
/// operations, the post-install script patches, the configure marker, and
/// the postinst-phase file operations.
pub open spec fn spec_plan(m: &AprilPackage) -> Seq<SpecAction> {
    (if m.total_conversion {
        seq![SpecAction::DropControlData]
    } else {
        Seq::empty()
    }) + spec_pre_scripts(&m.overrides.scripts) + spec_list_field(
        "Pre-Depends"@,
        m.overrides.pre_depends,
    ) + spec_scalar_field("Architecture"@, m.overrides.arch) + spec_scalar_field(
        "Package"@,
        m.overrides.name,
    ) + spec_installed_size_field(m.overrides.installed_size) + seq![SpecAction::Preconfig]
        + spec_conffiles(m.overrides.conffiles) + seq![SpecAction::Extract] + spec_list_field(
        "Depends"@,
        m.overrides.depends,
    ) + spec_list_field("Recommends"@, m.overrides.recommends) + spec_list_field(
        "Conflicts"@,
        m.overrides.conflicts,
    ) + spec_list_field("Suggests"@, m.overrides.suggests) + spec_list_field(
        "Breaks"@,
        m.overrides.breaks,
    ) + spec_list_field("Replaces"@, m.overrides.replaces) + spec_list_field(
        "Provides"@,
        m.overrides.provides,
    ) + spec_scalar_field("Version"@, m.overrides.version) + spec_scalar_field(
        "Description"@,
        m.overrides.description,
    ) + spec_scalar_field("Section"@, m.overrides.section) + spec_essential_field(
        m.overrides.essential,
    ) + spec_opt_files_phase(m.files, AprilFileOperationPhase::Unpack) + spec_post_scripts(
        &m.overrides.scripts,
    ) + seq![SpecAction::Configure] + spec_opt_files_phase(
        m.files,
        AprilFileOperationPhase::Postinst,
    )
}

// ---------------------------------------------------------------------
// Laws of the plan order
// ---------------------------------------------------------------------
/// A lifecycle marker: a directive to the package-manager driver.
pub open spec fn spec_is_marker(a: SpecAction) -> bool {
    match a {
        SpecAction::Preconfig
        | SpecAction::Unpack
        | SpecAction::Extract
        | SpecAction::Configure
        | SpecAction::Install => true,
        _ => false,
    }
}

/// A patch to one of the scripts that must be in place before the
/// pre-configure step.
pub open spec fn spec_is_pre_script_patch(a: SpecAction) -> bool {
    match a {
        SpecAction::PatchScript { file, .. } => file == "preinst"@ || file == "prerm"@ || file
            == "triggers"@,
        _ => false,
    }
}

/// A patch to one of the scripts that run at configure time.
pub open spec fn spec_is_post_script_patch(a: SpecAction) -> bool {
    match a {
        SpecAction::PatchScript { file, .. } => file == "postinst"@ || file == "postrm"@,
        _ => false,
    }
}

/// No action of the sequence is a lifecycle marker or a script patch.
pub open spec fn spec_only_field_or_file(s: Seq<SpecAction>) -> bool {
    forall|k: int|
        0 <= k < s.len() ==> (#[trigger] s[k]) matches SpecAction::PatchField { .. }
            || s[k] matches SpecAction::PatchFile { .. }
}

proof fn lemma_expand_list_shape(field: Seq<char>, items: Seq<Seq<char>>)
    ensures
        spec_only_field_or_file(spec_expand_list(field, items)),
    decreases items.len(),
{
    if items.len() > 0 {
        lemma_expand_list_shape(field, items.skip(1));
        assert forall|k: int|
            0 <= k < spec_expand_list(field, items).len() implies (#[trigger] spec_expand_list(
            field,
            items,
        )[k]) matches SpecAction::PatchField { .. } || spec_expand_list(field, items)[k] matches SpecAction::PatchFile { .. } by {
            let head = spec_list_item(field, items[0]);
            if k >= head.len() {
                assert(spec_expand_list(field, items)[k] == spec_expand_list(
                    field,
                    items.skip(1),
                )[k - head.len()]);
            }
        }
    }
}

proof fn lemma_list_field_shape(field: Seq<char>, values: Option<Vec<String>>)
    ensures
        spec_only_field_or_file(spec_list_field(field, values)),
{
    match values {
        None => {},
        Some(v) => {
            if v@.len() > 0 {
                lemma_expand_list_shape(field, v@.map_values(|s: String| s@));
            }
        },
    }
}

proof fn lemma_files_phase_shape(items: Seq<(String, AprilFileOperation)>, phase: AprilFileOperationPhase)
    ensures
        spec_only_field_or_file(spec_files_phase(items, phase)),
    decreases items.len(),
{
    if items.len() > 0 {
        lemma_files_phase_shape(items.skip(1), phase);
        let s = spec_files_phase(items, phase);
        let head = if items[0].1.phase == phase {
            seq![SpecAction::PatchFile { path: items[0].0@, op: items[0].1.operation@ }]
        } else {
            Seq::<SpecAction>::empty()
        };
        assert forall|k: int| 0 <= k < s.len() implies (#[trigger] s[k]) matches
            SpecAction::PatchField { .. } || s[k] matches SpecAction::PatchFile { .. } by {
            if k >= head.len() {
                assert(s[k] == spec_files_phase(items.skip(1), phase)[k - head.len()]);
            }
        }
    }
}

/// The actions of the segments before the pre-configure marker, between
/// the markers, and after the configure marker, none of which is itself a
/// marker.
pub open spec fn spec_plan_segment_a(m: &AprilPackage) -> Seq<SpecAction> {
    (if m.total_conversion {
        seq![SpecAction::DropControlData]
    } else {
        Seq::empty()
    }) + spec_pre_scripts(&m.overrides.scripts) + spec_list_field(
        "Pre-Depends"@,
        m.overrides.pre_depends,
    ) + spec_scalar_field("Architecture"@, m.overrides.arch) + spec_scalar_field(
        "Package"@,
        m.overrides.name,
    ) + spec_installed_size_field(m.overrides.installed_size)
}

pub open spec fn spec_plan_segment_c(m: &AprilPackage) -> Seq<SpecAction> {
    spec_list_field("Depends"@, m.overrides.depends) + spec_list_field(
        "Recommends"@,
        m.overrides.recommends,
    ) + spec_list_field("Conflicts"@, m.overrides.conflicts) + spec_list_field(
        "Suggests"@,
        m.overrides.suggests,
    ) + spec_list_field("Breaks"@, m.overrides.breaks) + spec_list_field(
        "Replaces"@,
        m.overrides.replaces,
    ) + spec_list_field("Provides"@, m.overrides.provides) + spec_scalar_field(
        "Version"@,
        m.overrides.version,
    ) + spec_scalar_field("Description"@, m.overrides.description) + spec_scalar_field(
        "Section"@,
        m.overrides.section,
    ) + spec_essential_field(m.overrides.essential) + spec_opt_files_phase(
        m.files,
        AprilFileOperationPhase::Unpack,
    ) + spec_post_scripts(&m.overrides.scripts)
}

proof fn lemma_seq_assoc(x: Seq<SpecAction>, y: Seq<SpecAction>, z: Seq<SpecAction>)
    ensures
        x + y + z == x + (y + z),
{
    assert(x + y + z =~= x + (y + z));
}

/// The plan splits around its three markers.
pub proof fn lemma_plan_split(m: &AprilPackage)
    ensures
        spec_plan(m) == spec_plan_segment_a(m) + seq![SpecAction::Preconfig] + spec_conffiles(
            m.overrides.conffiles,
        ) + seq![SpecAction::Extract] + spec_plan_segment_c(m) + seq![SpecAction::Configure]
            + spec_opt_files_phase(m.files, AprilFileOperationPhase::Postinst),
{
    let a = spec_plan_segment_a(m);
    let b = spec_conffiles(m.overrides.conffiles);
    let d = spec_opt_files_phase(m.files, AprilFileOperationPhase::Postinst);
    let u1 = spec_list_field("Depends"@, m.overrides.depends);
    let u2 = spec_list_field("Recommends"@, m.overrides.recommends);
    let u3 = spec_list_field("Conflicts"@, m.overrides.conflicts);
    let u4 = spec_list_field("Suggests"@, m.overrides.suggests);
    let u5 = spec_list_field("Breaks"@, m.overrides.breaks);
    let u6 = spec_list_field("Replaces"@, m.overrides.replaces);
    let u7 = spec_list_field("Provides"@, m.overrides.provides);
    let u8 = spec_scalar_field("Version"@, m.overrides.version);
    let u9 = spec_scalar_field("Description"@, m.overrides.description);
    let u10 = spec_scalar_field("Section"@, m.overrides.section);
    let u11 = spec_essential_field(m.overrides.essential);
    let u12 = spec_opt_files_phase(m.files, AprilFileOperationPhase::Unpack);
    let u13 = spec_post_scripts(&m.overrides.scripts);
    let x = a + seq![SpecAction::Preconfig] + b + seq![SpecAction::Extract];
    // The middle field-and-file segment, regrouped one term at a time.
    assert(spec_plan(m) == x + u1 + u2 + u3 + u4 + u5 + u6 + u7 + u8 + u9 + u10 + u11 + u12
        + u13 + seq![SpecAction::Configure] + d);
    let c2 = u1 + u2;
    let c3 = c2 + u3;
    let c4 = c3 + u4;
    let c5 = c4 + u5;
    let c6 = c5 + u6;
    let c7 = c6 + u7;
    let c8 = c7 + u8;
    let c9 = c8 + u9;
    let c10 = c9 + u10;
    let c11 = c10 + u11;
    let c12 = c11 + u12;
    lemma_seq_assoc(x, u1, u2);
    assert(x + c2 == x + u1 + u2);
    lemma_seq_assoc(x, c2, u3);
    assert(x + c3 == x + u1 + u2 + u3);
    lemma_seq_assoc(x, c3, u4);
    assert(x + c4 == x + u1 + u2 + u3 + u4);
    lemma_seq_assoc(x, c4, u5);
    assert(x + c5 == x + u1 + u2 + u3 + u4 + u5);
    lemma_seq_assoc(x, c5, u6);
    assert(x + c6 == x + u1 + u2 + u3 + u4 + u5 + u6);
    lemma_seq_assoc(x, c6, u7);
    assert(x + c7 == x + u1 + u2 + u3 + u4 + u5 + u6 + u7);
    lemma_seq_assoc(x, c7, u8);
    assert(x + c8 == x + u1 + u2 + u3 + u4 + u5 + u6 + u7 + u8);
    lemma_seq_assoc(x, c8, u9);
    assert(x + c9 == x + u1 + u2 + u3 + u4 + u5 + u6 + u7 + u8 + u9);
    lemma_seq_assoc(x, c9, u10);
    assert(x + c10 == x + u1 + u2 + u3 + u4 + u5 + u6 + u7 + u8 + u9 + u10);
    lemma_seq_assoc(x, c10, u11);
    assert(x + c11 == x + u1 + u2 + u3 + u4 + u5 + u6 + u7 + u8 + u9 + u10 + u11);
    lemma_seq_assoc(x, c11, u12);
    assert(x + c12 == x + u1 + u2 + u3 + u4 + u5 + u6 + u7 + u8 + u9 + u10 + u11 + u12);
    lemma_seq_assoc(x, c12, u13);
    assert(x + spec_plan_segment_c(m) == x + u1 + u2 + u3 + u4 + u5 + u6 + u7 + u8 + u9 + u10
        + u11 + u12 + u13);
}

proof fn lemma_no_marker_a(m: &AprilPackage)
    ensures
        forall|k: int|
            0 <= k < spec_plan_segment_a(m).len() ==> !spec_is_marker(
                #[trigger] spec_plan_segment_a(m)[k],
            ),
{
    lemma_list_field_shape("Pre-Depends"@, m.overrides.pre_depends);
}

proof fn lemma_no_marker_c(m: &AprilPackage)
    ensures
        forall|k: int|
            0 <= k < spec_plan_segment_c(m).len() ==> !spec_is_marker(
                #[trigger] spec_plan_segment_c(m)[k],
            ),
{
    lemma_list_field_shape("Depends"@, m.overrides.depends);
    lemma_list_field_shape("Recommends"@, m.overrides.recommends);
    lemma_list_field_shape("Conflicts"@, m.overrides.conflicts);
    lemma_list_field_shape("Suggests"@, m.overrides.suggests);
    lemma_list_field_shape("Breaks"@, m.overrides.breaks);
    lemma_list_field_shape("Replaces"@, m.overrides.replaces);
    lemma_list_field_shape("Provides"@, m.overrides.provides);
    match m.files {
        Some(v) => {
            lemma_files_phase_shape(v@, AprilFileOperationPhase::Unpack);
        },
        None => {},
    }
}

proof fn lemma_no_marker_d(m: &AprilPackage)
    ensures
        forall|k: int|
            0 <= k < spec_opt_files_phase(m.files, AprilFileOperationPhase::Postinst).len()
                ==> !spec_is_marker(
                #[trigger] spec_opt_files_phase(m.files, AprilFileOperationPhase::Postinst)[k],
            ),
{
    match m.files {
        Some(v) => {
            lemma_files_phase_shape(v@, AprilFileOperationPhase::Postinst);
        },
        None => {},
    }
}

/// The index of the pre-configure marker in the plan.
pub open spec fn spec_preconfig_index(m: &AprilPackage) -> int {
    spec_plan_segment_a(m).len() as int
}

/// The index of the extract marker in the plan.
pub open spec fn spec_extract_index(m: &AprilPackage) -> int {
    spec_preconfig_index(m) + 1 + spec_conffiles(m.overrides.conffiles).len()
}

/// The index of the configure marker in the plan.
pub open spec fn spec_configure_index(m: &AprilPackage) -> int {
    spec_extract_index(m) + 1 + spec_plan_segment_c(m).len()
}

/// Each lifecycle marker of a plan stands at exactly one place, and the
/// pre-configure marker precedes the extract marker, which precedes the
/// configure marker.
pub proof fn lemma_lifecycle_marker_order(m: &AprilPackage)
    ensures
        forall|i: int|
            0 <= i < spec_plan(m).len() ==> ((#[trigger] spec_plan(m)[i]) is Preconfig <==> i
                == spec_preconfig_index(m)),
        forall|i: int|
            0 <= i < spec_plan(m).len() ==> ((#[trigger] spec_plan(m)[i]) is Extract <==> i
                == spec_extract_index(m)),
        forall|i: int|
            0 <= i < spec_plan(m).len() ==> ((#[trigger] spec_plan(m)[i]) is Configure <==> i
                == spec_configure_index(m)),
        spec_preconfig_index(m) < spec_extract_index(m) < spec_configure_index(m),
{
    lemma_plan_split(m);
    lemma_no_marker_a(m);
    lemma_no_marker_c(m);
    lemma_no_marker_d(m);
    let a = spec_plan_segment_a(m);
    let b = spec_conffiles(m.overrides.conffiles);
    let c = spec_plan_segment_c(m);
    let d = spec_opt_files_phase(m.files, AprilFileOperationPhase::Postinst);
    let plan = spec_plan(m);
    let ip = spec_preconfig_index(m);
    let ie = spec_extract_index(m);
    let ic = spec_configure_index(m);
    assert(plan.len() == a.len() + 1 + b.len() + 1 + c.len() + 1 + d.len());
    assert forall|i: int| 0 <= i < plan.len() implies ((#[trigger] plan[i]) is Preconfig <==> i
        == ip) && (plan[i] is Extract <==> i == ie) && (plan[i] is Configure <==> i == ic) by {
        if i < a.len() {
            assert(plan[i] == a[i]);
            assert(!spec_is_marker(a[i]));
        } else if i == ip {
            assert(plan[i] == SpecAction::Preconfig);
        } else if i < ie {
            assert(plan[i] == b[i - ip - 1]);
            assert(b[i - ip - 1] matches SpecAction::PatchScript { .. });
        } else if i == ie {
            assert(plan[i] == SpecAction::Extract);
        } else if i < ic {
            assert(plan[i] == c[i - ie - 1]);
            assert(!spec_is_marker(c[i - ie - 1]));
        } else if i == ic {
            assert(plan[i] == SpecAction::Configure);
        } else {
            assert(plan[i] == d[i - ic - 1]);
            assert(!spec_is_marker(d[i - ic - 1]));
        }
    }
}

/// A wiped manifest begins its plan with the control wipe: under total
/// conversion `DropControlData` is the first action.
pub proof fn lemma_total_conversion_drops_first(m: &AprilPackage)
    requires
        m.total_conversion,
    ensures
        spec_plan(m).len() > 0,
        spec_plan(m)[0] == SpecAction::DropControlData,
{
    assert(spec_plan(m).len() > 0 && spec_plan(m)[0] == SpecAction::DropControlData) by {
        lemma_plan_split(m);
        let a = spec_plan_segment_a(m);
        assert(a[0] == SpecAction::DropControlData);
        assert(spec_plan(m)[0] == a[0]);
    }
}

/// Script patches stand on the right side of the markers: `preinst`,
/// `prerm` and `triggers` patches precede the pre-configure marker, and
/// `postinst`/`postrm` patches stand between the extract marker and the
/// configure marker.
#[verifier::rlimit(100)]
#[verifier::spinoff_prover]
pub proof fn lemma_script_patch_order(m: &AprilPackage)
    ensures
        forall|i: int, j: int|
            0 <= i < spec_plan(m).len() && 0 <= j < spec_plan(m).len() && spec_is_pre_script_patch(
                #[trigger] spec_plan(m)[i],
            ) && (#[trigger] spec_plan(m)[j]) is Preconfig ==> i < j,
        forall|i: int, j: int|
            0 <= i < spec_plan(m).len() && 0 <= j < spec_plan(m).len()
                && spec_is_post_script_patch(#[trigger] spec_plan(m)[i]) && (
            #[trigger] spec_plan(m)[j]) is Extract ==> j < i,
        forall|i: int, j: int|
            0 <= i < spec_plan(m).len() && 0 <= j < spec_plan(m).len()
                && spec_is_post_script_patch(#[trigger] spec_plan(m)[i]) && (
            #[trigger] spec_plan(m)[j]) is Configure ==> i < j,
{
    lemma_plan_split(m);
    lemma_lifecycle_marker_order(m);
    lemma_no_marker_a(m);
    lemma_no_marker_c(m);
    lemma_no_marker_d(m);
    reveal_strlit("preinst");
    reveal_strlit("prerm");
    reveal_strlit("triggers");
    reveal_strlit("postinst");
    reveal_strlit("postrm");
    reveal_strlit("conffiles");
    lemma_list_field_shape("Pre-Depends"@, m.overrides.pre_depends);
    lemma_list_field_shape("Depends"@, m.overrides.depends);
    lemma_list_field_shape("Recommends"@, m.overrides.recommends);
    lemma_list_field_shape("Conflicts"@, m.overrides.conflicts);
    lemma_list_field_shape("Suggests"@, m.overrides.suggests);
    lemma_list_field_shape("Breaks"@, m.overrides.breaks);
    lemma_list_field_shape("Replaces"@, m.overrides.replaces);
    lemma_list_field_shape("Provides"@, m.overrides.provides);
    match m.files {
        Some(v) => {
            lemma_files_phase_shape(v@, AprilFileOperationPhase::Unpack);
            lemma_files_phase_shape(v@, AprilFileOperationPhase::Postinst);
        },
        None => {},
    }
    let a = spec_plan_segment_a(m);
    let b = spec_conffiles(m.overrides.conffiles);
    let c = spec_plan_segment_c(m);
    let d = spec_opt_files_phase(m.files, AprilFileOperationPhase::Postinst);
    let plan = spec_plan(m);
    let ip = spec_preconfig_index(m);
    let ie = spec_extract_index(m);
    let ic = spec_configure_index(m);
    // Pre-script patches live only in the opening segment; post-script
    // patches only between extract and configure.
    assert forall|i: int| 0 <= i < plan.len() implies (spec_is_pre_script_patch(
        #[trigger] plan[i],
    ) ==> i < ip) && (spec_is_post_script_patch(plan[i]) ==> ie < i < ic) by {
        assert(("preinst"@).len() == 7);
        assert(("prerm"@).len() == 5);
        assert(("triggers"@).len() == 8);
        assert(("postinst"@).len() == 8);
        assert(("postrm"@).len() == 6);
        assert(("conffiles"@).len() == 9);
        assert(("triggers"@)[0] == 't' && ("postinst"@)[0] == 'p');
        if i < a.len() {
            assert(plan[i] == a[i]);
            if spec_is_post_script_patch(a[i]) {
                // The opening segment holds only the pre-unpack script
                // patches and field edits.
                assert(false);
            }
        } else if i == ip || i == ie || i == ic {
        } else if i < ie {
            assert(plan[i] == b[i - ip - 1]);
        } else if i < ic {
            assert(plan[i] == c[i - ie - 1]);
            if spec_is_pre_script_patch(c[i - ie - 1]) {
                assert(false);
            }
        } else {
            assert(plan[i] == d[i - ic - 1]);
        }
    }
}

/// The meaning of a list-entry modifier: a leading `+` appends the rest,
/// a leading `-` removes the rest, and a bare entry appends itself.
pub proof fn lemma_list_modifier_semantics(field: Seq<char>, item: Seq<char>)
    requires
        item.len() > 0,
    ensures
        item[0] == '+' ==> spec_list_item(field, item) == seq![
            SpecAction::PatchField {
                field,
                value: item.skip(1),
                action: AprilActionType::Append,
            },
        ],
        item[0] == '-' ==> spec_list_item(field, item) == seq![
            SpecAction::PatchField {
                field,
                value: item.skip(1),
                action: AprilActionType::Remove,
            },
        ],
        item[0] != '+' && item[0] != '-' ==> spec_list_item(field, item) == seq![
            SpecAction::PatchField { field, value: item, action: AprilActionType::Append },
        ],
{
}

/// An empty override list clears the field: it expands to a single
/// `Replace` with the empty value.
pub proof fn lemma_empty_list_clears(field: Seq<char>, values: Option<Vec<String>>)
    requires
        values matches Some(v) && v@.len() == 0,
    ensures
        spec_list_field(field, values) == seq![
            SpecAction::PatchField {
                field,
                value: Seq::empty(),
                action: AprilActionType::Replace,
            },
        ],
{
}

// ---------------------------------------------------------------------
// Exec planner
// ---------------------------------------------------------------------
fn clone_file_op(op: &AprilFileOperationType) -> (r: AprilFileOperationType)
    ensures
        r@ == op@,
{
    match op {
        AprilFileOperationType::Remove => AprilFileOperationType::Remove,
        AprilFileOperationType::Move(p) => AprilFileOperationType::Move(p.clone()),
        AprilFileOperationType::Copy(p) => AprilFileOperationType::Copy(p.clone()),
        AprilFileOperationType::Link(p) => AprilFileOperationType::Link(p.clone()),
        AprilFileOperationType::Patch(u) => AprilFileOperationType::Patch(u.clone()),
        AprilFileOperationType::BinaryPatch(u) => AprilFileOperationType::BinaryPatch(u.clone()),
        AprilFileOperationType::Divert(p) => AprilFileOperationType::Divert(p.clone()),
        AprilFileOperationType::Track => AprilFileOperationType::Track,
        AprilFileOperationType::Overwrite(u) => AprilFileOperationType::Overwrite(u.clone()),
        AprilFileOperationType::Add(u) => AprilFileOperationType::Add(u.clone()),
        AprilFileOperationType::Chmod(m) => AprilFileOperationType::Chmod(*m),
        AprilFileOperationType::Mkdir => AprilFileOperationType::Mkdir,
    }
}

fn script_patch_action(file: &str, body: &String) -> (r: AprilAction)
    ensures
        r@ == spec_script_patch(file@, body@),
{
    if body.as_str().is_empty() {
        AprilAction::PatchScript {
            file: file.to_owned(),
            content: None,
            action: AprilActionType::Remove,
        }
    } else {
        AprilAction::PatchScript {
            file: file.to_owned(),
            content: Some(body.clone()),
            action: AprilActionType::Replace,
        }
    }
}

fn add_opt_script(actions: &mut Vec<AprilAction>, file: &str, body: &Option<String>)
    ensures
        final(actions)@.map_values(|a: AprilAction| a@) == old(actions)@.map_values(
            |a: AprilAction| a@,
        ) + spec_opt_script(file@, *body),
{
    match body {
        Some(b) => {
            let a = script_patch_action(file, b);
            actions.push(a);
            proof {
                assert(actions@.map_values(|x: AprilAction| x@) =~= old(actions)@.map_values(
                    |x: AprilAction| x@,
                ) + spec_opt_script(file@, *body));
            }
        },
        None => {
            proof {
                assert(actions@.map_values(|x: AprilAction| x@) =~= old(actions)@.map_values(
                    |x: AprilAction| x@,
                ) + spec_opt_script(file@, *body));
            }
        },
    }
}

/// Expand one list-valued override into field patches, entry by entry.
pub fn add_fields_patch_action(
    actions: &mut Vec<AprilAction>,
    values: &Option<Vec<String>>,
    name: &str,
)
    ensures
        final(actions)@.map_values(|a: AprilAction| a@) == old(actions)@.map_values(
            |a: AprilAction| a@,
        ) + spec_list_field(name@, *values),
{
    let ghost base = actions@.map_values(|a: AprilAction| a@);
    match values {
        None => {
            proof {
                assert(actions@.map_values(|x: AprilAction| x@) =~= base + spec_list_field(
                    name@,
                    *values,
                ));
            }
        },
        Some(v) => {
            if v.len() == 0 {
                actions.push(
                    AprilAction::PatchField {
                        field: name.to_owned(),
                        value: String::new(),
                        action: AprilActionType::Replace,
                    },
                );
                proof {
                    assert(actions@.map_values(|x: AprilAction| x@) =~= base + spec_list_field(
                        name@,
                        *values,
                    ));
                }
            } else {
                let ghost items = v@.map_values(|s: String| s@);
                let mut i: usize = 0;
                proof {
                    assert(items.skip(0) =~= items);
                }
                while i < v.len()
                    invariant
                        i <= v@.len(),
                        items == v@.map_values(|s: String| s@),
                        base + spec_expand_list(name@, items) == actions@.map_values(
                            |a: AprilAction| a@,
                        ) + spec_expand_list(name@, items.skip(i as int)),
                    decreases v@.len() - i,
                {
                    let ghost cur = actions@.map_values(|a: AprilAction| a@);
                    let ghost item = items[i as int];
                    proof {
                        assert(items[i as int] == v@[i as int]@);
                        assert(items.skip(i as int)[0] == items[i as int]);
                        assert(items.skip(i as int).skip(1) =~= items.skip(i as int + 1));
                    }
                    let f = &v[i];
                    if !f.as_str().is_empty() {
                        let flen = f.as_str().unicode_len();
                        let c = f.as_str().get_char(0);
                        if c == '+' {
                            let val = f.as_str().substring_char(1, flen).to_owned();
                            proof {
                                assert(val@ =~= item.skip(1));
                            }
                            actions.push(
                                AprilAction::PatchField {
                                    field: name.to_owned(),
                                    value: val,
                                    action: AprilActionType::Append,
                                },
                            );
                        } else if c == '-' {
                            let val = f.as_str().substring_char(1, flen).to_owned();
                            proof {
                                assert(val@ =~= item.skip(1));
                            }
                            actions.push(
                                AprilAction::PatchField {
                                    field: name.to_owned(),
                                    value: val,
                                    action: AprilActionType::Remove,
                                },
                            );
                        } else {
                            actions.push(
                                AprilAction::PatchField {
                                    field: name.to_owned(),
                                    value: f.clone(),
                                    action: AprilActionType::Append,
                                },
                            );
                        }
                    }
                    proof {
                        assert(actions@.map_values(|a: AprilAction| a@) =~= cur + spec_list_item(
                            name@,
                            item,
                        ));
                    }
                    i = i + 1;
                }
                proof {
                    assert(spec_expand_list(name@, items.skip(v@.len() as int)).len() == 0);
                    assert(base + spec_expand_list(name@, items) =~= actions@.map_values(
                        |a: AprilAction| a@,
                    ));
                    assert(spec_list_field(name@, *values) == spec_expand_list(name@, items));
                }
            }
        },
    }
}

/// The action for one scalar override, if the override is present.
pub fn add_field_patch_action(field: &Option<String>, name: &str) -> (r: Option<AprilAction>)
    ensures
        ({
            let sf = spec_scalar_field(name@, *field);
            match r {
                Some(a) => sf.len() == 1 && a@ == sf[0],
                None => sf.len() == 0,
            }
        }),
{
    match field {
        Some(v) => Some(
            AprilAction::PatchField {
                field: name.to_owned(),
                value: v.clone(),
                action: AprilActionType::Replace,
            },
        ),
        None => None,
    }
}

fn add_scalar_field(actions: &mut Vec<AprilAction>, field: &Option<String>, name: &str)
    ensures
        final(actions)@.map_values(|a: AprilAction| a@) == old(actions)@.map_values(
            |a: AprilAction| a@,
        ) + spec_scalar_field(name@, *field),
{
    match add_field_patch_action(field, name) {
        Some(a) => {
            actions.push(a);
            proof {
                assert(actions@.map_values(|x: AprilAction| x@) =~= old(actions)@.map_values(
                    |x: AprilAction| x@,
                ) + spec_scalar_field(name@, *field));
            }
        },
        None => {
            proof {
                assert(actions@.map_values(|x: AprilAction| x@) =~= old(actions)@.map_values(
                    |x: AprilAction| x@,
                ) + spec_scalar_field(name@, *field));
            }
        },
    }
}

fn add_files_phase(
    actions: &mut Vec<AprilAction>,
    files: &Option<Vec<(String, AprilFileOperation)>>,
    phase: AprilFileOperationPhase,
)
    ensures
        final(actions)@.map_values(|a: AprilAction| a@) == old(actions)@.map_values(
            |a: AprilAction| a@,
        ) + spec_opt_files_phase(*files, phase),
{
    let ghost base = actions@.map_values(|a: AprilAction| a@);
    match files {
        None => {
            proof {
                assert(actions@.map_values(|x: AprilAction| x@) =~= base + spec_opt_files_phase(
                    *files,
                    phase,
                ));
            }
        },
        Some(v) => {
            let mut i: usize = 0;
            proof {
                assert(v@.skip(0) =~= v@);
            }
            while i < v.len()
                invariant
                    i <= v@.len(),
                    base + spec_files_phase(v@, phase) == actions@.map_values(
                        |a: AprilAction| a@,
                    ) + spec_files_phase(v@.skip(i as int), phase),
                decreases v@.len() - i,
            {
                let ghost cur = actions@.map_values(|a: AprilAction| a@);
                proof {
                    assert(v@.skip(i as int)[0] == v@[i as int]);
                    assert(v@.skip(i as int).skip(1) =~= v@.skip(i as int + 1));
                }
                let entry = &v[i];
                if entry.1.phase == phase {
                    let op = clone_file_op(&entry.1.operation);
                    actions.push(AprilAction::PatchFile { path: entry.0.clone(), action: op });
                }
                proof {
                    assert(actions@.map_values(|a: AprilAction| a@) =~= cur + (
                    if v@[i as int].1.phase == phase {
                        seq![
                            SpecAction::PatchFile {
                                path: v@[i as int].0@,
                                op: v@[i as int].1.operation@,
                            },
                        ]
                    } else {
                        Seq::<SpecAction>::empty()
                    }));
                }
                i = i + 1;
            }
            proof {
                assert(spec_files_phase(v@.skip(v@.len() as int), phase).len() == 0);
                assert(base + spec_files_phase(v@, phase) =~= actions@.map_values(
                    |a: AprilAction| a@,
                ));
            }
        },
    }
}

fn add_conffiles(actions: &mut Vec<AprilAction>, values: &Option<Vec<String>>)
    ensures
        final(actions)@.map_values(|a: AprilAction| a@) == old(actions)@.map_values(
            |a: AprilAction| a@,
        ) + spec_conffiles(*values),
{
    let ghost base = actions@.map_values(|a: AprilAction| a@);
    match values {
        None => {
            proof {
                assert(actions@.map_values(|x: AprilAction| x@) =~= base + spec_conffiles(
                    *values,
                ));
            }
        },
        Some(v) => {
            let ghost items = v@.map_values(|s: String| s@);
            let mut joined = String::new();
            let mut i: usize = 0;
            if v.len() > 0 {
                joined.append(v[0].as_str());
                i = 1;
                proof {
                    assert(items[0] == v@[0]@);
                }
            }
            while i < v.len()
                invariant
                    1 <= i <= v@.len() || (i == 0 && v@.len() == 0),
                    items == v@.map_values(|s: String| s@),
                    v@.len() > 0 ==> joined@ + spec_join_rest(items.skip(i as int))
                        == spec_join_nl(items),
                    v@.len() == 0 ==> joined@ == spec_join_nl(items),
                decreases v@.len() - i,
            {
                proof {
                    assert(items.skip(i as int)[0] == items[i as int]);
                    assert(items[i as int] == v@[i as int]@);
                    assert(items.skip(i as int).skip(1) =~= items.skip(i as int + 1));
                }
                joined.append("\n");
                joined.append(v[i].as_str());
                proof {
                    reveal_strlit("\n");
                    assert("\n"@ =~= seq!['\n']);
                }
                i = i + 1;
            }
            proof {
                if v@.len() > 0 {
                    assert(spec_join_rest(items.skip(v@.len() as int)).len() == 0);
                    assert(joined@ =~= spec_join_nl(items));
                }
            }
            let a = script_patch_action("conffiles", &joined);
            actions.push(a);
            proof {
                assert(actions@.map_values(|x: AprilAction| x@) =~= base + spec_conffiles(
                    *values,
                ));
            }
        },
    }
}

/// Lower a manifest into its ordered action plan.  The order is fixed by
/// the install lifecycle: see `spec_plan`.
pub fn plan_actions_from_april_data(data: &AprilPackage) -> (r: Result<
    Vec<AprilAction>,
    AprilError,
>)
    ensures
        r matches Ok(v) && v@.map_values(|a: AprilAction| a@) == spec_plan(data),
{
    let mut actions: Vec<AprilAction> = Vec::new();
    let ghost mut built: Seq<SpecAction> = Seq::empty();
    proof {
        assert(actions@.map_values(|a: AprilAction| a@) =~= built);
    }
    if data.total_conversion {
        actions.push(AprilAction::DropControlData);
    }
    proof {
        built = built + (if data.total_conversion {
            seq![SpecAction::DropControlData]
        } else {
            Seq::<SpecAction>::empty()
        });
        assert(actions@.map_values(|a: AprilAction| a@) =~= built);
    }
    match &data.overrides.scripts {
        Some(s) => {
            add_opt_script(&mut actions, "preinst", &s.preinst);
            add_opt_script(&mut actions, "prerm", &s.prerm);
            add_opt_script(&mut actions, "triggers", &s.triggers);
        },
        None => {},
    }
    proof {
        built = built + spec_pre_scripts(&data.overrides.scripts);
        assert(actions@.map_values(|a: AprilAction| a@) =~= built);
    }
    add_fields_patch_action(&mut actions, &data.overrides.pre_depends, "Pre-Depends");
    proof {
        built = built + spec_list_field("Pre-Depends"@, data.overrides.pre_depends);
        assert(actions@.map_values(|a: AprilAction| a@) =~= built);
    }
    add_scalar_field(&mut actions, &data.overrides.arch, "Architecture");
    proof {
        built = built + spec_scalar_field("Architecture"@, data.overrides.arch);
    }
    add_scalar_field(&mut actions, &data.overrides.name, "Package");
    proof {
        built = built + spec_scalar_field("Package"@, data.overrides.name);
    }
    match &data.overrides.installed_size {
        Some(n) => {
            let rendered = u64_to_string(*n);
            actions.push(
                AprilAction::PatchField {
                    field: String::from_str("Installed-Size"),
                    value: rendered,
                    action: AprilActionType::Replace,
                },
            );
        },
        None => {},
    }
    proof {
        built = built + spec_installed_size_field(data.overrides.installed_size);
        assert(actions@.map_values(|a: AprilAction| a@) =~= built);
    }
    actions.push(AprilAction::PreconfigPackage);
    proof {
        built = built + seq![SpecAction::Preconfig];
        assert(actions@.map_values(|a: AprilAction| a@) =~= built);
    }
    add_conffiles(&mut actions, &data.overrides.conffiles);
    proof {
        built = built + spec_conffiles(data.overrides.conffiles);
    }
    actions.push(AprilAction::ExtractPackage);
    proof {
        built = built + seq![SpecAction::Extract];
        assert(actions@.map_values(|a: AprilAction| a@) =~= built);
    }
    add_fields_patch_action(&mut actions, &data.overrides.depends, "Depends");
    proof {
        built = built + spec_list_field("Depends"@, data.overrides.depends);
    }
    add_fields_patch_action(&mut actions, &data.overrides.recommends, "Recommends");
    proof {
        built = built + spec_list_field("Recommends"@, data.overrides.recommends);
    }
    add_fields_patch_action(&mut actions, &data.overrides.conflicts, "Conflicts");
    proof {
        built = built + spec_list_field("Conflicts"@, data.overrides.conflicts);
    }
    add_fields_patch_action(&mut actions, &data.overrides.suggests, "Suggests");
    proof {
        built = built + spec_list_field("Suggests"@, data.overrides.suggests);
    }
    add_fields_patch_action(&mut actions, &data.overrides.breaks, "Breaks");
    proof {
        built = built + spec_list_field("Breaks"@, data.overrides.breaks);
    }
    add_fields_patch_action(&mut actions, &data.overrides.replaces, "Replaces");
    proof {
        built = built + spec_list_field("Replaces"@, data.overrides.replaces);
    }
    add_fields_patch_action(&mut actions, &data.overrides.provides, "Provides");
    proof {
        built = built + spec_list_field("Provides"@, data.overrides.provides);
        assert(actions@.map_values(|a: AprilAction| a@) =~= built);
    }
    add_scalar_field(&mut actions, &data.overrides.version, "Version");
    proof {
        built = built + spec_scalar_field("Version"@, data.overrides.version);
    }
    add_scalar_field(&mut actions, &data.overrides.description, "Description");
    proof {
        built = built + spec_scalar_field("Description"@, data.overrides.description);
    }
    add_scalar_field(&mut actions, &data.overrides.section, "Section");
    proof {
        built = built + spec_scalar_field("Section"@, data.overrides.section);
    }
    match &data.overrides.essential {
        Some(b) => {
            let rendered = if *b {
                String::from_str("yes")
            } else {
                String::from_str("no")
            };
            actions.push(
                AprilAction::PatchField {
                    field: String::from_str("Essential"),
                    value: rendered,
                    action: AprilActionType::Replace,
                },
            );
        },
        None => {},
    }
    proof {
        built = built + spec_essential_field(data.overrides.essential);
        assert(actions@.map_values(|a: AprilAction| a@) =~= built);
    }
    add_files_phase(&mut actions, &data.files, AprilFileOperationPhase::Unpack);
    proof {
        built = built + spec_opt_files_phase(data.files, AprilFileOperationPhase::Unpack);
    }
    match &data.overrides.scripts {
        Some(s) => {
            add_opt_script(&mut actions, "postinst", &s.postinst);
            add_opt_script(&mut actions, "postrm", &s.postrm);
        },
        None => {},
    }
    proof {
        built = built + spec_post_scripts(&data.overrides.scripts);
        assert(actions@.map_values(|a: AprilAction| a@) =~= built);
    }
    actions.push(AprilAction::ConfigurePackage);
    proof {
        built = built + seq![SpecAction::Configure];
        assert(actions@.map_values(|a: AprilAction| a@) =~= built);
    }
    add_files_phase(&mut actions, &data.files, AprilFileOperationPhase::Postinst);
    proof {
        built = built + spec_opt_files_phase(data.files, AprilFileOperationPhase::Postinst);
        assert(actions@.map_values(|a: AprilAction| a@) =~= built);
        assert(built == spec_plan(data));
    }
    Ok(actions)
}

} // verus!
