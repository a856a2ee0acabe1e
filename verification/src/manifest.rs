//! The APRIL manifest data model and its validation rules.

use vstd::prelude::*;

verus! {

use crate::errors::AprilError;
use vstd::string::StringExecFns;

/// Optional replacement bodies for the maintainer scripts.
#[derive(Debug)]
pub struct AprilPackageScriptOverrides {
    pub prerm: Option<String>,
    pub postrm: Option<String>,
    pub preinst: Option<String>,
    pub postinst: Option<String>,
    pub triggers: Option<String>,
}

/// Optional patches to the control fields of the target package.
#[derive(Debug)]
pub struct AprilPackageOverrides {
    pub name: Option<String>,
    pub version: Option<String>,
    pub arch: Option<String>,
    pub essential: Option<bool>,
    pub installed_size: Option<u64>,
    pub section: Option<String>,
    pub description: Option<String>,
    pub depends: Option<Vec<String>>,
    pub recommends: Option<Vec<String>>,
    pub suggests: Option<Vec<String>>,
    pub enhances: Option<Vec<String>>,
    pub pre_depends: Option<Vec<String>>,
    pub breaks: Option<Vec<String>>,
    pub conflicts: Option<Vec<String>>,
    pub replaces: Option<Vec<String>>,
    pub provides: Option<Vec<String>>,
    pub scripts: Option<AprilPackageScriptOverrides>,
    pub conffiles: Option<Vec<String>>,
}

/// When a file operation runs: before or after the configure step.
#[derive(Debug, Clone, Copy, PartialEq, Eq, Structural)]
pub enum AprilFileOperationPhase {
    Unpack,
    Postinst,
}

/// What to do to one installed file.
#[derive(Debug, Clone)]
pub enum AprilFileOperationType {
    Remove,
    Move(String),
    Copy(String),
    Link(String),
    Patch(String),
    BinaryPatch(String),
    Divert(String),
    Track,
    Overwrite(String),
    Add(String),
    Chmod(u16),
    Mkdir,
}

/// A file operation together with its phase.
#[derive(Debug)]
pub struct AprilFileOperation {
    pub phase: AprilFileOperationPhase,
    pub operation: AprilFileOperationType,
}

/// One APRIL manifest entry: patches for one package variant.  File
/// operations are kept as a list of `(installed path, operation)` pairs in
/// document order.
#[derive(Debug)]
pub struct AprilPackage {
    pub schema: String,
    pub name: String,
    pub compatible_versions: String,
    pub total_conversion: bool,
    pub overrides: AprilPackageOverrides,
    pub files: Option<Vec<(String, AprilFileOperation)>>,
}

/// A total-conversion manifest must supply every field the replacement
/// control paragraph needs.
pub open spec fn spec_mandatory_fields_present(o: &AprilPackageOverrides) -> bool {
    &&& o.name is Some
    &&& o.version is Some
    &&& o.arch is Some
    &&& o.installed_size is Some
    &&& o.section is Some
    &&& o.description is Some
    &&& o.depends is Some
}

/// The manifest is valid: its schema is the supported one and, under total
/// conversion, all mandatory overrides are present.
pub open spec fn spec_manifest_valid(m: &AprilPackage) -> bool {
    &&& m.schema@ == "0"@
    &&& (m.total_conversion ==> spec_mandatory_fields_present(&m.overrides))
}

/// Check the manifest invariants: the schema string must be `"0"`, and a
/// total-conversion manifest must carry every mandatory override.
pub fn validate_april_data(data: &AprilPackage) -> (r: Result<(), AprilError>)
    ensures
        r is Ok <==> spec_manifest_valid(data),
        r == Err::<(), AprilError>(AprilError::InvalidSchema) <==> data.schema@ != "0"@,
        r == Err::<(), AprilError>(AprilError::MissingMandatoryFields) <==> (data.schema@ == "0"@
            && data.total_conversion && !spec_mandatory_fields_present(&data.overrides)),
{
    let zero = String::from_str("0");
    if !data.schema.eq(&zero) {
        return Err(AprilError::InvalidSchema);
    }
    if data.total_conversion {
        if data.overrides.name.is_none() || data.overrides.version.is_none()
            || data.overrides.arch.is_none() || data.overrides.installed_size.is_none()
            || data.overrides.section.is_none() || data.overrides.description.is_none()
            || data.overrides.depends.is_none() {
            return Err(AprilError::MissingMandatoryFields);
        }
    }
    Ok(())
}

} // verus!
