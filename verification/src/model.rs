use vstd::prelude::*;

verus! {

#[verifier::external_type_specification]
#[verifier::external_body]
pub struct ExJsonValue(serde_json::Value);

#[verifier::external_type_specification]
#[verifier::external_body]
pub struct ExUuid(uuid::Uuid);

#[verifier::external_type_specification]
#[verifier::external_body]
pub struct ExUrl(url::Url);

/// One use of a payload: the group and the option it belongs to, if any,
/// its path in the game, and the archive it came from, if known.
pub type GroupOptionGameArchive = (Option<String>, Option<String>, String, Option<String>);

/// The payloads that a mod needs, each under its hash with all its uses,
/// and the address under which the payloads are served.
pub struct NeededFiles {
    pub base_uri: url::Url,
    pub files: Vec<(String, Vec<GroupOptionGameArchive>)>,
}

/// How the options of a group are chosen.
#[derive(Clone, Copy, Debug, PartialEq, Eq, Structural)]
pub enum SelectionType {
    Single,
    Multi,
}

/// One option of a group as the caller describes it.
pub struct OptionItem {
    pub name: String,
    pub image_path: Option<String>,
    pub description: Option<String>,
    pub game_paths: Vec<String>,
}

/// One group of options as the caller describes it.
pub struct Group {
    pub name: String,
    pub selection_type: SelectionType,
    pub options: Vec<OptionItem>,
}

/// What a mod says of itself.
pub struct ModInfo {
    pub name: String,
    pub author: String,
    pub version: String,
    pub description: String,
    pub url: String,
}

} // verus!
