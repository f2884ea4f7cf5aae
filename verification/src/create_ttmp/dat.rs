use crate::text::{before_first, lemma_before_first_without, str_eq, str_split_once};
use vstd::prelude::*;

verus! {

/// The code of the data file that holds the paths of a category.
pub open spec fn dat_code(category: Seq<char>) -> Option<Seq<char>> {
    if category == "common"@ {
        Some("000000"@)
    } else if category == "bgcommon"@ {
        Some("010000"@)
    } else if category == "bg"@ {
        Some("020000"@)
    } else if category == "cut"@ {
        Some("030000"@)
    } else if category == "chara"@ {
        Some("040000"@)
    } else if category == "shader"@ {
        Some("050000"@)
    } else if category == "ui"@ {
        Some("060000"@)
    } else if category == "sound"@ {
        Some("070000"@)
    } else if category == "vfx"@ {
        Some("080000"@)
    } else if category == "ui_script"@ {
        Some("090000"@)
    } else if category == "exd"@ {
        Some("0a0000"@)
    } else if category == "game_script"@ {
        Some("0b0000"@)
    } else if category == "music"@ {
        Some("0c0000"@)
    } else if category == "sqpack_test"@ {
        Some("120000"@)
    } else if category == "debug"@ {
        Some("130000"@)
    } else {
        None
    }
}

/// Looks up the code of the data file of a category.
pub fn dat_file(category: &str) -> (code: Option<&'static str>)
    ensures
        match code {
            Some(c) => dat_code(category@) == Some(c@),
            None => dat_code(category@) is None,
        },
{
    if str_eq(category, "common") {
        Some("000000")
    } else if str_eq(category, "bgcommon") {
        Some("010000")
    } else if str_eq(category, "bg") {
        Some("020000")
    } else if str_eq(category, "cut") {
        Some("030000")
    } else if str_eq(category, "chara") {
        Some("040000")
    } else if str_eq(category, "shader") {
        Some("050000")
    } else if str_eq(category, "ui") {
        Some("060000")
    } else if str_eq(category, "sound") {
        Some("070000")
    } else if str_eq(category, "vfx") {
        Some("080000")
    } else if str_eq(category, "ui_script") {
        Some("090000")
    } else if str_eq(category, "exd") {
        Some("0a0000")
    } else if str_eq(category, "game_script") {
        Some("0b0000")
    } else if str_eq(category, "music") {
        Some("0c0000")
    } else if str_eq(category, "sqpack_test") {
        Some("120000")
    } else if str_eq(category, "debug") {
        Some("130000")
    } else {
        None
    }
}

/// The code of the data file of a path in the game: that of the category
/// with which the path begins, and that of `chara` where the path begins
/// with no known category.
pub open spec fn dat_code_of(game_path: Seq<char>) -> Seq<char> {
    match dat_code(before_first(game_path, '/')) {
        Some(code) => code,
        None => "040000"@,
    }
}

/// Finds the code of the data file of a path in the game.
pub fn dat_file_of(game_path: &str) -> (code: &'static str)
    ensures
        code@ == dat_code_of(game_path@),
{
    let category = match str_split_once(game_path, '/') {
        Some(halves) => halves.0,
        None => {
            proof {
                lemma_before_first_without(game_path@, '/');
            }
            game_path
        },
    };
    match dat_file(category) {
        Some(code) => code,
        None => "040000",
    }
}

} // verus!
