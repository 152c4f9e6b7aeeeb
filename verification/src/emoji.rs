//! `:shortcode:` to emoji replacement over raw markdown source, run
//! before the other preprocessing passes.

use vstd::prelude::*;
use crate::tables::render::is_ascii_alnum;
use crate::text::{chars_of, eq_str, lines, lines_of, push_all, push_str, starts_with, starts_with_str, string_of, trim, trimmed, views};

verus! {

/// The emoji for a GitHub shortcode, from a curated list of the ones
/// that show up in issues, pull requests and READMEs.
pub open spec fn emoji_for(n: Seq<char>) -> Option<Seq<char>> {
    if n == "+1"@ || n == "thumbsup"@ {
        Some("👍"@)
    } else if n == "-1"@ || n == "thumbsdown"@ {
        Some("👎"@)
    } else if n == "tada"@ {
        Some("🎉"@)
    } else if n == "rocket"@ {
        Some("🚀"@)
    } else if n == "fire"@ {
        Some("🔥"@)
    } else if n == "sparkles"@ {
        Some("✨"@)
    } else if n == "100"@ {
        Some("💯"@)
    } else if n == "ok_hand"@ {
        Some("👌"@)
    } else if n == "clap"@ {
        Some("👏"@)
    } else if n == "wave"@ {
        Some("👋"@)
    } else if n == "pray"@ {
        Some("🙏"@)
    } else if n == "muscle"@ {
        Some("💪"@)
    } else if n == "raised_hands"@ {
        Some("🙌"@)
    } else if n == "handshake"@ {
        Some("🤝"@)
    } else if n == "heart"@ {
        Some("❤️"@)
    } else if n == "broken_heart"@ {
        Some("💔"@)
    } else if n == "heart_eyes"@ {
        Some("😍"@)
    } else if n == "eyes"@ {
        Some("👀"@)
    } else if n == "brain"@ {
        Some("🧠"@)
    } else if n == "white_check_mark"@ {
        Some("✅"@)
    } else if n == "heavy_check_mark"@ {
        Some("✔️"@)
    } else if n == "x"@ {
        Some("❌"@)
    } else if n == "heavy_multiplication_x"@ {
        Some("✖️"@)
    } else if n == "warning"@ {
        Some("⚠️"@)
    } else if n == "exclamation"@ {
        Some("❗"@)
    } else if n == "question"@ {
        Some("❓"@)
    } else if n == "grey_exclamation"@ {
        Some("❕"@)
    } else if n == "grey_question"@ {
        Some("❔"@)
    } else if n == "bangbang"@ {
        Some("‼️"@)
    } else if n == "interrobang"@ {
        Some("⁉️"@)
    } else if n == "no_entry"@ {
        Some("⛔"@)
    } else if n == "no_entry_sign"@ {
        Some("🚫"@)
    } else if n == "construction"@ {
        Some("🚧"@)
    } else if n == "stop_sign"@ {
        Some("🛑"@)
    } else if n == "smile"@ {
        Some("😄"@)
    } else if n == "smiley"@ {
        Some("😃"@)
    } else if n == "grin"@ {
        Some("😁"@)
    } else if n == "grinning"@ {
        Some("😀"@)
    } else if n == "joy"@ {
        Some("😂"@)
    } else if n == "rofl"@ {
        Some("🤣"@)
    } else if n == "laughing"@ {
        Some("😆"@)
    } else if n == "sweat_smile"@ {
        Some("😅"@)
    } else if n == "wink"@ {
        Some("😉"@)
    } else if n == "blush"@ {
        Some("😊"@)
    } else if n == "innocent"@ {
        Some("😇"@)
    } else if n == "thinking"@ {
        Some("🤔"@)
    } else if n == "neutral_face"@ {
        Some("😐"@)
    } else if n == "expressionless"@ {
        Some("😑"@)
    } else if n == "no_mouth"@ {
        Some("😶"@)
    } else if n == "smirk"@ {
        Some("😏"@)
    } else if n == "unamused"@ {
        Some("😒"@)
    } else if n == "roll_eyes"@ {
        Some("🙄"@)
    } else if n == "grimacing"@ {
        Some("😬"@)
    } else if n == "face_with_raised_eyebrow"@ {
        Some("🤨"@)
    } else if n == "confused"@ {
        Some("😕"@)
    } else if n == "worried"@ {
        Some("😟"@)
    } else if n == "frowning"@ {
        Some("😦"@)
    } else if n == "anguished"@ {
        Some("😧"@)
    } else if n == "open_mouth"@ {
        Some("😮"@)
    } else if n == "hushed"@ {
        Some("😯"@)
    } else if n == "astonished"@ {
        Some("😲"@)
    } else if n == "scream"@ {
        Some("😱"@)
    } else if n == "tired_face"@ {
        Some("😫"@)
    } else if n == "weary"@ {
        Some("😩"@)
    } else if n == "sleepy"@ {
        Some("😪"@)
    } else if n == "sleeping"@ {
        Some("😴"@)
    } else if n == "yum"@ {
        Some("😋"@)
    } else if n == "stuck_out_tongue"@ {
        Some("😛"@)
    } else if n == "stuck_out_tongue_winking_eye"@ {
        Some("😜"@)
    } else if n == "zany_face"@ {
        Some("🤪"@)
    } else if n == "face_with_hand_over_mouth"@ {
        Some("🤭"@)
    } else if n == "shushing_face"@ {
        Some("🤫"@)
    } else if n == "face_with_monocle"@ {
        Some("🧐"@)
    } else if n == "nerd_face"@ {
        Some("🤓"@)
    } else if n == "sunglasses"@ {
        Some("😎"@)
    } else if n == "star_struck"@ {
        Some("🤩"@)
    } else if n == "partying_face"@ {
        Some("🥳"@)
    } else if n == "cry"@ {
        Some("😢"@)
    } else if n == "sob"@ {
        Some("😭"@)
    } else if n == "rage"@ {
        Some("😡"@)
    } else if n == "angry"@ {
        Some("😠"@)
    } else if n == "triumph"@ {
        Some("😤"@)
    } else if n == "imp"@ {
        Some("👿"@)
    } else if n == "smiling_imp"@ {
        Some("😈"@)
    } else if n == "skull"@ {
        Some("💀"@)
    } else if n == "skull_and_crossbones"@ {
        Some("☠️"@)
    } else if n == "alien"@ {
        Some("👽"@)
    } else if n == "robot"@ {
        Some("🤖"@)
    } else if n == "ghost"@ {
        Some("👻"@)
    } else if n == "computer"@ {
        Some("💻"@)
    } else if n == "desktop_computer"@ {
        Some("🖥️"@)
    } else if n == "keyboard"@ {
        Some("⌨️"@)
    } else if n == "mouse"@ {
        Some("🖱️"@)
    } else if n == "iphone"@ {
        Some("📱"@)
    } else if n == "phone"@ || n == "telephone"@ {
        Some("☎️"@)
    } else if n == "package"@ {
        Some("📦"@)
    } else if n == "memo"@ || n == "pencil"@ {
        Some("📝"@)
    } else if n == "pencil2"@ {
        Some("✏️"@)
    } else if n == "bulb"@ {
        Some("💡"@)
    } else if n == "wrench"@ {
        Some("🔧"@)
    } else if n == "hammer"@ {
        Some("🔨"@)
    } else if n == "hammer_and_wrench"@ {
        Some("🛠️"@)
    } else if n == "gear"@ {
        Some("⚙️"@)
    } else if n == "nut_and_bolt"@ {
        Some("🔩"@)
    } else if n == "bug"@ {
        Some("🐛"@)
    } else if n == "lock"@ {
        Some("🔒"@)
    } else if n == "unlock"@ {
        Some("🔓"@)
    } else if n == "key"@ {
        Some("🔑"@)
    } else if n == "shield"@ {
        Some("🛡️"@)
    } else if n == "satellite"@ {
        Some("🛰️"@)
    } else if n == "zap"@ {
        Some("⚡"@)
    } else if n == "boom"@ {
        Some("💥"@)
    } else if n == "bomb"@ {
        Some("💣"@)
    } else if n == "link"@ {
        Some("🔗"@)
    } else if n == "paperclip"@ {
        Some("📎"@)
    } else if n == "books"@ {
        Some("📚"@)
    } else if n == "book"@ {
        Some("📖"@)
    } else if n == "page_facing_up"@ {
        Some("📄"@)
    } else if n == "scroll"@ {
        Some("📜"@)
    } else if n == "clipboard"@ {
        Some("📋"@)
    } else if n == "calendar"@ {
        Some("📅"@)
    } else if n == "stopwatch"@ {
        Some("⏱️"@)
    } else if n == "alarm_clock"@ {
        Some("⏰"@)
    } else if n == "hourglass"@ {
        Some("⌛"@)
    } else if n == "hourglass_flowing_sand"@ {
        Some("⏳"@)
    } else if n == "star"@ {
        Some("⭐"@)
    } else if n == "star2"@ {
        Some("🌟"@)
    } else if n == "trophy"@ {
        Some("🏆"@)
    } else if n == "medal_sports"@ {
        Some("🏅"@)
    } else if n == "first_place_medal"@ {
        Some("🥇"@)
    } else if n == "second_place_medal"@ {
        Some("🥈"@)
    } else if n == "third_place_medal"@ {
        Some("🥉"@)
    } else if n == "crown"@ {
        Some("👑"@)
    } else if n == "gem"@ {
        Some("💎"@)
    } else if n == "moneybag"@ {
        Some("💰"@)
    } else if n == "dollar"@ {
        Some("💵"@)
    } else if n == "arrow_up"@ {
        Some("⬆️"@)
    } else if n == "arrow_down"@ {
        Some("⬇️"@)
    } else if n == "arrow_left"@ {
        Some("⬅️"@)
    } else if n == "arrow_right"@ {
        Some("➡️"@)
    } else if n == "arrow_upper_right"@ {
        Some("↗️"@)
    } else if n == "arrow_lower_right"@ {
        Some("↘️"@)
    } else if n == "arrow_upper_left"@ {
        Some("↖️"@)
    } else if n == "arrow_lower_left"@ {
        Some("↙️"@)
    } else if n == "arrows_clockwise"@ {
        Some("🔃"@)
    } else if n == "arrows_counterclockwise"@ {
        Some("🔄"@)
    } else if n == "leftwards_arrow_with_hook"@ {
        Some("↩️"@)
    } else if n == "arrow_right_hook"@ {
        Some("↪️"@)
    } else if n == "point_up"@ {
        Some("☝️"@)
    } else if n == "point_down"@ {
        Some("👇"@)
    } else if n == "point_left"@ {
        Some("👈"@)
    } else if n == "point_right"@ {
        Some("👉"@)
    } else if n == "coffee"@ {
        Some("☕"@)
    } else if n == "beer"@ {
        Some("🍺"@)
    } else if n == "pizza"@ {
        Some("🍕"@)
    } else if n == "poop"@ || n == "shit"@ || n == "hankey"@ {
        Some("💩"@)
    } else if n == "tada_party"@ {
        Some("🥳"@)
    } else if n == "balloon"@ {
        Some("🎈"@)
    } else if n == "gift"@ {
        Some("🎁"@)
    } else if n == "art"@ {
        Some("🎨"@)
    } else if n == "rainbow"@ {
        Some("🌈"@)
    } else if n == "sun"@ || n == "sunny"@ {
        Some("☀️"@)
    } else if n == "cloud"@ {
        Some("☁️"@)
    } else if n == "snowflake"@ {
        Some("❄️"@)
    } else if n == "umbrella"@ {
        Some("☂️"@)
    } else if n == "earth_americas"@ {
        Some("🌎"@)
    } else if n == "earth_africa"@ {
        Some("🌍"@)
    } else if n == "earth_asia"@ {
        Some("🌏"@)
    } else if n == "dog"@ {
        Some("🐶"@)
    } else if n == "cat"@ {
        Some("🐱"@)
    } else if n == "fox_face"@ {
        Some("🦊"@)
    } else if n == "lion"@ {
        Some("🦁"@)
    } else if n == "monkey"@ {
        Some("🐒"@)
    } else if n == "see_no_evil"@ {
        Some("🙈"@)
    } else if n == "hear_no_evil"@ {
        Some("🙉"@)
    } else if n == "speak_no_evil"@ {
        Some("🙊"@)
    } else if n == "panda_face"@ {
        Some("🐼"@)
    } else if n == "penguin"@ {
        Some("🐧"@)
    } else if n == "owl"@ {
        Some("🦉"@)
    } else if n == "snail"@ {
        Some("🐌"@)
    } else if n == "ant"@ {
        Some("🐜"@)
    } else if n == "honeybee"@ {
        Some("🐝"@)
    } else if n == "butterfly"@ {
        Some("🦋"@)
    } else if n == "octopus"@ {
        Some("🐙"@)
    } else if n == "seedling"@ {
        Some("🌱"@)
    } else if n == "evergreen_tree"@ {
        Some("🌲"@)
    } else if n == "deciduous_tree"@ {
        Some("🌳"@)
    } else if n == "palm_tree"@ {
        Some("🌴"@)
    } else if n == "cactus"@ {
        Some("🌵"@)
    } else if n == "herb"@ {
        Some("🌿"@)
    } else if n == "leaves"@ {
        Some("🍃"@)
    } else if n == "rose"@ {
        Some("🌹"@)
    } else if n == "cherry_blossom"@ {
        Some("🌸"@)
    } else if n == "sunflower"@ {
        Some("🌻"@)
    } else if n == "apple"@ || n == "red_apple"@ {
        Some("🍎"@)
    } else if n == "banana"@ {
        Some("🍌"@)
    } else if n == "cake"@ {
        Some("🍰"@)
    } else if n == "cookie"@ {
        Some("🍪"@)
    } else if n == "doughnut"@ {
        Some("🍩"@)
    } else if n == "icecream"@ {
        Some("🍨"@)
    } else if n == "chocolate_bar"@ {
        Some("🍫"@)
    } else {
        None
    }
}

/// The emoji for a shortcode name (without the colons), if it is one of
/// the curated shortcodes.
pub fn lookup_emoji(name: &str) -> (r: Option<&'static str>)
    ensures
        match r {
            Some(e) => emoji_for(name@) == Some(e@),
            None => emoji_for(name@) is None,
        },
{
    let n = chars_of(name);
    if eq_str(n.as_slice(), "+1") || eq_str(n.as_slice(), "thumbsup") {
        return Some("👍");
    }
    if eq_str(n.as_slice(), "-1") || eq_str(n.as_slice(), "thumbsdown") {
        return Some("👎");
    }
    if eq_str(n.as_slice(), "tada") {
        return Some("🎉");
    }
    if eq_str(n.as_slice(), "rocket") {
        return Some("🚀");
    }
    if eq_str(n.as_slice(), "fire") {
        return Some("🔥");
    }
    if eq_str(n.as_slice(), "sparkles") {
        return Some("✨");
    }
    if eq_str(n.as_slice(), "100") {
        return Some("💯");
    }
    if eq_str(n.as_slice(), "ok_hand") {
        return Some("👌");
    }
    if eq_str(n.as_slice(), "clap") {
        return Some("👏");
    }
    if eq_str(n.as_slice(), "wave") {
        return Some("👋");
    }
    if eq_str(n.as_slice(), "pray") {
        return Some("🙏");
    }
    if eq_str(n.as_slice(), "muscle") {
        return Some("💪");
    }
    if eq_str(n.as_slice(), "raised_hands") {
        return Some("🙌");
    }
    if eq_str(n.as_slice(), "handshake") {
        return Some("🤝");
    }
    if eq_str(n.as_slice(), "heart") {
        return Some("❤️");
    }
    if eq_str(n.as_slice(), "broken_heart") {
        return Some("💔");
    }
    if eq_str(n.as_slice(), "heart_eyes") {
        return Some("😍");
    }
    if eq_str(n.as_slice(), "eyes") {
        return Some("👀");
    }
    if eq_str(n.as_slice(), "brain") {
        return Some("🧠");
    }
    if eq_str(n.as_slice(), "white_check_mark") {
        return Some("✅");
    }
    if eq_str(n.as_slice(), "heavy_check_mark") {
        return Some("✔️");
    }
    if eq_str(n.as_slice(), "x") {
        return Some("❌");
    }
    if eq_str(n.as_slice(), "heavy_multiplication_x") {
        return Some("✖️");
    }
    if eq_str(n.as_slice(), "warning") {
        return Some("⚠️");
    }
    if eq_str(n.as_slice(), "exclamation") {
        return Some("❗");
    }
    if eq_str(n.as_slice(), "question") {
        return Some("❓");
    }
    if eq_str(n.as_slice(), "grey_exclamation") {
        return Some("❕");
    }
    if eq_str(n.as_slice(), "grey_question") {
        return Some("❔");
    }
    if eq_str(n.as_slice(), "bangbang") {
        return Some("‼️");
    }
    if eq_str(n.as_slice(), "interrobang") {
        return Some("⁉️");
    }
    if eq_str(n.as_slice(), "no_entry") {
        return Some("⛔");
    }
    if eq_str(n.as_slice(), "no_entry_sign") {
        return Some("🚫");
    }
    if eq_str(n.as_slice(), "construction") {
        return Some("🚧");
    }
    if eq_str(n.as_slice(), "stop_sign") {
        return Some("🛑");
    }
    if eq_str(n.as_slice(), "smile") {
        return Some("😄");
    }
    if eq_str(n.as_slice(), "smiley") {
        return Some("😃");
    }
    if eq_str(n.as_slice(), "grin") {
        return Some("😁");
    }
    if eq_str(n.as_slice(), "grinning") {
        return Some("😀");
    }
    if eq_str(n.as_slice(), "joy") {
        return Some("😂");
    }
    if eq_str(n.as_slice(), "rofl") {
        return Some("🤣");
    }
    if eq_str(n.as_slice(), "laughing") {
        return Some("😆");
    }
    if eq_str(n.as_slice(), "sweat_smile") {
        return Some("😅");
    }
    if eq_str(n.as_slice(), "wink") {
        return Some("😉");
    }
    if eq_str(n.as_slice(), "blush") {
        return Some("😊");
    }
    if eq_str(n.as_slice(), "innocent") {
        return Some("😇");
    }
    if eq_str(n.as_slice(), "thinking") {
        return Some("🤔");
    }
    if eq_str(n.as_slice(), "neutral_face") {
        return Some("😐");
    }
    if eq_str(n.as_slice(), "expressionless") {
        return Some("😑");
    }
    if eq_str(n.as_slice(), "no_mouth") {
        return Some("😶");
    }
    if eq_str(n.as_slice(), "smirk") {
        return Some("😏");
    }
    if eq_str(n.as_slice(), "unamused") {
        return Some("😒");
    }
    if eq_str(n.as_slice(), "roll_eyes") {
        return Some("🙄");
    }
    if eq_str(n.as_slice(), "grimacing") {
        return Some("😬");
    }
    if eq_str(n.as_slice(), "face_with_raised_eyebrow") {
        return Some("🤨");
    }
    if eq_str(n.as_slice(), "confused") {
        return Some("😕");
    }
    if eq_str(n.as_slice(), "worried") {
        return Some("😟");
    }
    if eq_str(n.as_slice(), "frowning") {
        return Some("😦");
    }
    if eq_str(n.as_slice(), "anguished") {
        return Some("😧");
    }
    if eq_str(n.as_slice(), "open_mouth") {
        return Some("😮");
    }
    if eq_str(n.as_slice(), "hushed") {
        return Some("😯");
    }
    if eq_str(n.as_slice(), "astonished") {
        return Some("😲");
    }
    if eq_str(n.as_slice(), "scream") {
        return Some("😱");
    }
    if eq_str(n.as_slice(), "tired_face") {
        return Some("😫");
    }
    if eq_str(n.as_slice(), "weary") {
        return Some("😩");
    }
    if eq_str(n.as_slice(), "sleepy") {
        return Some("😪");
    }
    if eq_str(n.as_slice(), "sleeping") {
        return Some("😴");
    }
    if eq_str(n.as_slice(), "yum") {
        return Some("😋");
    }
    if eq_str(n.as_slice(), "stuck_out_tongue") {
        return Some("😛");
    }
    if eq_str(n.as_slice(), "stuck_out_tongue_winking_eye") {
        return Some("😜");
    }
    if eq_str(n.as_slice(), "zany_face") {
        return Some("🤪");
    }
    if eq_str(n.as_slice(), "face_with_hand_over_mouth") {
        return Some("🤭");
    }
    if eq_str(n.as_slice(), "shushing_face") {
        return Some("🤫");
    }
    if eq_str(n.as_slice(), "face_with_monocle") {
        return Some("🧐");
    }
    if eq_str(n.as_slice(), "nerd_face") {
        return Some("🤓");
    }
    if eq_str(n.as_slice(), "sunglasses") {
        return Some("😎");
    }
    if eq_str(n.as_slice(), "star_struck") {
        return Some("🤩");
    }
    if eq_str(n.as_slice(), "partying_face") {
        return Some("🥳");
    }
    if eq_str(n.as_slice(), "cry") {
        return Some("😢");
    }
    if eq_str(n.as_slice(), "sob") {
        return Some("😭");
    }
    if eq_str(n.as_slice(), "rage") {
        return Some("😡");
    }
    if eq_str(n.as_slice(), "angry") {
        return Some("😠");
    }
    if eq_str(n.as_slice(), "triumph") {
        return Some("😤");
    }
    if eq_str(n.as_slice(), "imp") {
        return Some("👿");
    }
    if eq_str(n.as_slice(), "smiling_imp") {
        return Some("😈");
    }
    if eq_str(n.as_slice(), "skull") {
        return Some("💀");
    }
    if eq_str(n.as_slice(), "skull_and_crossbones") {
        return Some("☠️");
    }
    if eq_str(n.as_slice(), "alien") {
        return Some("👽");
    }
    if eq_str(n.as_slice(), "robot") {
        return Some("🤖");
    }
    if eq_str(n.as_slice(), "ghost") {
        return Some("👻");
    }
    if eq_str(n.as_slice(), "computer") {
        return Some("💻");
    }
    if eq_str(n.as_slice(), "desktop_computer") {
        return Some("🖥️");
    }
    if eq_str(n.as_slice(), "keyboard") {
        return Some("⌨️");
    }
    if eq_str(n.as_slice(), "mouse") {
        return Some("🖱️");
    }
    if eq_str(n.as_slice(), "iphone") {
        return Some("📱");
    }
    if eq_str(n.as_slice(), "phone") || eq_str(n.as_slice(), "telephone") {
        return Some("☎️");
    }
    if eq_str(n.as_slice(), "package") {
        return Some("📦");
    }
    if eq_str(n.as_slice(), "memo") || eq_str(n.as_slice(), "pencil") {
        return Some("📝");
    }
    if eq_str(n.as_slice(), "pencil2") {
        return Some("✏️");
    }
    if eq_str(n.as_slice(), "bulb") {
        return Some("💡");
    }
    if eq_str(n.as_slice(), "wrench") {
        return Some("🔧");
    }
    if eq_str(n.as_slice(), "hammer") {
        return Some("🔨");
    }
    if eq_str(n.as_slice(), "hammer_and_wrench") {
        return Some("🛠️");
    }
    if eq_str(n.as_slice(), "gear") {
        return Some("⚙️");
    }
    if eq_str(n.as_slice(), "nut_and_bolt") {
        return Some("🔩");
    }
    if eq_str(n.as_slice(), "bug") {
        return Some("🐛");
    }
    if eq_str(n.as_slice(), "lock") {
        return Some("🔒");
    }
    if eq_str(n.as_slice(), "unlock") {
        return Some("🔓");
    }
    if eq_str(n.as_slice(), "key") {
        return Some("🔑");
    }
    if eq_str(n.as_slice(), "shield") {
        return Some("🛡️");
    }
    if eq_str(n.as_slice(), "satellite") {
        return Some("🛰️");
    }
    if eq_str(n.as_slice(), "zap") {
        return Some("⚡");
    }
    if eq_str(n.as_slice(), "boom") {
        return Some("💥");
    }
    if eq_str(n.as_slice(), "bomb") {
        return Some("💣");
    }
    if eq_str(n.as_slice(), "link") {
        return Some("🔗");
    }
    if eq_str(n.as_slice(), "paperclip") {
        return Some("📎");
    }
    if eq_str(n.as_slice(), "books") {
        return Some("📚");
    }
    if eq_str(n.as_slice(), "book") {
        return Some("📖");
    }
    if eq_str(n.as_slice(), "page_facing_up") {
        return Some("📄");
    }
    if eq_str(n.as_slice(), "scroll") {
        return Some("📜");
    }
    if eq_str(n.as_slice(), "clipboard") {
        return Some("📋");
    }
    if eq_str(n.as_slice(), "calendar") {
        return Some("📅");
    }
    if eq_str(n.as_slice(), "stopwatch") {
        return Some("⏱️");
    }
    if eq_str(n.as_slice(), "alarm_clock") {
        return Some("⏰");
    }
    if eq_str(n.as_slice(), "hourglass") {
        return Some("⌛");
    }
    if eq_str(n.as_slice(), "hourglass_flowing_sand") {
        return Some("⏳");
    }
    if eq_str(n.as_slice(), "star") {
        return Some("⭐");
    }
    if eq_str(n.as_slice(), "star2") {
        return Some("🌟");
    }
    if eq_str(n.as_slice(), "trophy") {
        return Some("🏆");
    }
    if eq_str(n.as_slice(), "medal_sports") {
        return Some("🏅");
    }
    if eq_str(n.as_slice(), "first_place_medal") {
        return Some("🥇");
    }
    if eq_str(n.as_slice(), "second_place_medal") {
        return Some("🥈");
    }
    if eq_str(n.as_slice(), "third_place_medal") {
        return Some("🥉");
    }
    if eq_str(n.as_slice(), "crown") {
        return Some("👑");
    }
    if eq_str(n.as_slice(), "gem") {
        return Some("💎");
    }
    if eq_str(n.as_slice(), "moneybag") {
        return Some("💰");
    }
    if eq_str(n.as_slice(), "dollar") {
        return Some("💵");
    }
    if eq_str(n.as_slice(), "arrow_up") {
        return Some("⬆️");
    }
    if eq_str(n.as_slice(), "arrow_down") {
        return Some("⬇️");
    }
    if eq_str(n.as_slice(), "arrow_left") {
        return Some("⬅️");
    }
    if eq_str(n.as_slice(), "arrow_right") {
        return Some("➡️");
    }
    if eq_str(n.as_slice(), "arrow_upper_right") {
        return Some("↗️");
    }
    if eq_str(n.as_slice(), "arrow_lower_right") {
        return Some("↘️");
    }
    if eq_str(n.as_slice(), "arrow_upper_left") {
        return Some("↖️");
    }
    if eq_str(n.as_slice(), "arrow_lower_left") {
        return Some("↙️");
    }
    if eq_str(n.as_slice(), "arrows_clockwise") {
        return Some("🔃");
    }
    if eq_str(n.as_slice(), "arrows_counterclockwise") {
        return Some("🔄");
    }
    if eq_str(n.as_slice(), "leftwards_arrow_with_hook") {
        return Some("↩️");
    }
    if eq_str(n.as_slice(), "arrow_right_hook") {
        return Some("↪️");
    }
    if eq_str(n.as_slice(), "point_up") {
        return Some("☝️");
    }
    if eq_str(n.as_slice(), "point_down") {
        return Some("👇");
    }
    if eq_str(n.as_slice(), "point_left") {
        return Some("👈");
    }
    if eq_str(n.as_slice(), "point_right") {
        return Some("👉");
    }
    if eq_str(n.as_slice(), "coffee") {
        return Some("☕");
    }
    if eq_str(n.as_slice(), "beer") {
        return Some("🍺");
    }
    if eq_str(n.as_slice(), "pizza") {
        return Some("🍕");
    }
    if eq_str(n.as_slice(), "poop") || eq_str(n.as_slice(), "shit") || eq_str(n.as_slice(), "hankey") {
        return Some("💩");
    }
    if eq_str(n.as_slice(), "tada_party") {
        return Some("🥳");
    }
    if eq_str(n.as_slice(), "balloon") {
        return Some("🎈");
    }
    if eq_str(n.as_slice(), "gift") {
        return Some("🎁");
    }
    if eq_str(n.as_slice(), "art") {
        return Some("🎨");
    }
    if eq_str(n.as_slice(), "rainbow") {
        return Some("🌈");
    }
    if eq_str(n.as_slice(), "sun") || eq_str(n.as_slice(), "sunny") {
        return Some("☀️");
    }
    if eq_str(n.as_slice(), "cloud") {
        return Some("☁️");
    }
    if eq_str(n.as_slice(), "snowflake") {
        return Some("❄️");
    }
    if eq_str(n.as_slice(), "umbrella") {
        return Some("☂️");
    }
    if eq_str(n.as_slice(), "earth_americas") {
        return Some("🌎");
    }
    if eq_str(n.as_slice(), "earth_africa") {
        return Some("🌍");
    }
    if eq_str(n.as_slice(), "earth_asia") {
        return Some("🌏");
    }
    if eq_str(n.as_slice(), "dog") {
        return Some("🐶");
    }
    if eq_str(n.as_slice(), "cat") {
        return Some("🐱");
    }
    if eq_str(n.as_slice(), "fox_face") {
        return Some("🦊");
    }
    if eq_str(n.as_slice(), "lion") {
        return Some("🦁");
    }
    if eq_str(n.as_slice(), "monkey") {
        return Some("🐒");
    }
    if eq_str(n.as_slice(), "see_no_evil") {
        return Some("🙈");
    }
    if eq_str(n.as_slice(), "hear_no_evil") {
        return Some("🙉");
    }
    if eq_str(n.as_slice(), "speak_no_evil") {
        return Some("🙊");
    }
    if eq_str(n.as_slice(), "panda_face") {
        return Some("🐼");
    }
    if eq_str(n.as_slice(), "penguin") {
        return Some("🐧");
    }
    if eq_str(n.as_slice(), "owl") {
        return Some("🦉");
    }
    if eq_str(n.as_slice(), "snail") {
        return Some("🐌");
    }
    if eq_str(n.as_slice(), "ant") {
        return Some("🐜");
    }
    if eq_str(n.as_slice(), "honeybee") {
        return Some("🐝");
    }
    if eq_str(n.as_slice(), "butterfly") {
        return Some("🦋");
    }
    if eq_str(n.as_slice(), "octopus") {
        return Some("🐙");
    }
    if eq_str(n.as_slice(), "seedling") {
        return Some("🌱");
    }
    if eq_str(n.as_slice(), "evergreen_tree") {
        return Some("🌲");
    }
    if eq_str(n.as_slice(), "deciduous_tree") {
        return Some("🌳");
    }
    if eq_str(n.as_slice(), "palm_tree") {
        return Some("🌴");
    }
    if eq_str(n.as_slice(), "cactus") {
        return Some("🌵");
    }
    if eq_str(n.as_slice(), "herb") {
        return Some("🌿");
    }
    if eq_str(n.as_slice(), "leaves") {
        return Some("🍃");
    }
    if eq_str(n.as_slice(), "rose") {
        return Some("🌹");
    }
    if eq_str(n.as_slice(), "cherry_blossom") {
        return Some("🌸");
    }
    if eq_str(n.as_slice(), "sunflower") {
        return Some("🌻");
    }
    if eq_str(n.as_slice(), "apple") || eq_str(n.as_slice(), "red_apple") {
        return Some("🍎");
    }
    if eq_str(n.as_slice(), "banana") {
        return Some("🍌");
    }
    if eq_str(n.as_slice(), "cake") {
        return Some("🍰");
    }
    if eq_str(n.as_slice(), "cookie") {
        return Some("🍪");
    }
    if eq_str(n.as_slice(), "doughnut") {
        return Some("🍩");
    }
    if eq_str(n.as_slice(), "icecream") {
        return Some("🍨");
    }
    if eq_str(n.as_slice(), "chocolate_bar") {
        return Some("🍫");
    }
    None
}

/// A character that may appear in a shortcode name.
pub open spec fn is_name_char(c: char) -> bool {
    is_ascii_alnum(c) || c == '_' || c == '+' || c == '-'
}

/// The end of the run of name characters starting at `j`.
pub open spec fn name_end(s: Seq<char>, j: int) -> int
    decreases s.len() - j,
{
    if 0 <= j < s.len() && is_name_char(s[j]) {
        name_end(s, j + 1)
    } else {
        j
    }
}

pub proof fn lemma_name_end(s: Seq<char>, j: int)
    requires
        0 <= j <= s.len(),
    ensures
        j <= name_end(s, j) <= s.len(),
    decreases s.len() - j,
{
    if j < s.len() && is_name_char(s[j]) {
        lemma_name_end(s, j + 1);
    }
}

/// `s[i..]` with each `:name:` of a known shortcode replaced by its
/// emoji; any other colon is kept.
pub open spec fn shortcodes_from(s: Seq<char>, i: int) -> Seq<char>
    decreases s.len() - i,
{
    if i < 0 || i >= s.len() {
        seq![]
    } else if s[i] == ':' {
        let j = name_end(s, i + 1);
        proof {
            lemma_name_end(s, i + 1);
        }
        if j < s.len() && s[j] == ':' && j > i + 1 && emoji_for(s.subrange(i + 1, j)) is Some {
            emoji_for(s.subrange(i + 1, j)).unwrap() + shortcodes_from(s, j + 1)
        } else {
            seq![':'] + shortcodes_from(s, i + 1)
        }
    } else {
        seq![s[i]] + shortcodes_from(s, i + 1)
    }
}

/// Every curated shortcode name is a run of name characters.
#[verifier::spinoff_prover]
#[verifier::rlimit(100)]
proof fn lemma_curated_name(n: Seq<char>)
    requires
        emoji_for(n) is Some,
    ensures
        n.len() > 0,
        name_end(n, 0) == n.len(),
{
    reveal_with_fuel(name_end, 30);
    if n == "+1"@ {
        reveal_strlit("+1");
        assert(name_end(n, 0) == n.len());
    } else if n == "thumbsup"@ {
        reveal_strlit("thumbsup");
        assert(name_end(n, 0) == n.len());
    } else if n == "-1"@ {
        reveal_strlit("-1");
        assert(name_end(n, 0) == n.len());
    } else if n == "thumbsdown"@ {
        reveal_strlit("thumbsdown");
        assert(name_end(n, 0) == n.len());
    } else if n == "tada"@ {
        reveal_strlit("tada");
        assert(name_end(n, 0) == n.len());
    } else if n == "rocket"@ {
        reveal_strlit("rocket");
        assert(name_end(n, 0) == n.len());
    } else if n == "fire"@ {
        reveal_strlit("fire");
        assert(name_end(n, 0) == n.len());
    } else if n == "sparkles"@ {
        reveal_strlit("sparkles");
        assert(name_end(n, 0) == n.len());
    } else if n == "100"@ {
        reveal_strlit("100");
        assert(name_end(n, 0) == n.len());
    } else if n == "ok_hand"@ {
        reveal_strlit("ok_hand");
        assert(name_end(n, 0) == n.len());
    } else if n == "clap"@ {
        reveal_strlit("clap");
        assert(name_end(n, 0) == n.len());
    } else if n == "wave"@ {
        reveal_strlit("wave");
        assert(name_end(n, 0) == n.len());
    } else if n == "pray"@ {
        reveal_strlit("pray");
        assert(name_end(n, 0) == n.len());
    } else if n == "muscle"@ {
        reveal_strlit("muscle");
        assert(name_end(n, 0) == n.len());
    } else if n == "raised_hands"@ {
        reveal_strlit("raised_hands");
        assert(name_end(n, 0) == n.len());
    } else if n == "handshake"@ {
        reveal_strlit("handshake");
        assert(name_end(n, 0) == n.len());
    } else if n == "heart"@ {
        reveal_strlit("heart");
        assert(name_end(n, 0) == n.len());
    } else if n == "broken_heart"@ {
        reveal_strlit("broken_heart");
        assert(name_end(n, 0) == n.len());
    } else if n == "heart_eyes"@ {
        reveal_strlit("heart_eyes");
        assert(name_end(n, 0) == n.len());
    } else if n == "eyes"@ {
        reveal_strlit("eyes");
        assert(name_end(n, 0) == n.len());
    } else if n == "brain"@ {
        reveal_strlit("brain");
        assert(name_end(n, 0) == n.len());
    } else if n == "white_check_mark"@ {
        reveal_strlit("white_check_mark");
        assert(name_end(n, 0) == n.len());
    } else if n == "heavy_check_mark"@ {
        reveal_strlit("heavy_check_mark");
        assert(name_end(n, 0) == n.len());
    } else if n == "x"@ {
        reveal_strlit("x");
        assert(name_end(n, 0) == n.len());
    } else if n == "heavy_multiplication_x"@ {
        reveal_strlit("heavy_multiplication_x");
        assert(name_end(n, 0) == n.len());
    } else if n == "warning"@ {
        reveal_strlit("warning");
        assert(name_end(n, 0) == n.len());
    } else if n == "exclamation"@ {
        reveal_strlit("exclamation");
        assert(name_end(n, 0) == n.len());
    } else if n == "question"@ {
        reveal_strlit("question");
        assert(name_end(n, 0) == n.len());
    } else if n == "grey_exclamation"@ {
        reveal_strlit("grey_exclamation");
        assert(name_end(n, 0) == n.len());
    } else if n == "grey_question"@ {
        reveal_strlit("grey_question");
        assert(name_end(n, 0) == n.len());
    } else if n == "bangbang"@ {
        reveal_strlit("bangbang");
        assert(name_end(n, 0) == n.len());
    } else if n == "interrobang"@ {
        reveal_strlit("interrobang");
        assert(name_end(n, 0) == n.len());
    } else if n == "no_entry"@ {
        reveal_strlit("no_entry");
        assert(name_end(n, 0) == n.len());
    } else if n == "no_entry_sign"@ {
        reveal_strlit("no_entry_sign");
        assert(name_end(n, 0) == n.len());
    } else if n == "construction"@ {
        reveal_strlit("construction");
        assert(name_end(n, 0) == n.len());
    } else if n == "stop_sign"@ {
        reveal_strlit("stop_sign");
        assert(name_end(n, 0) == n.len());
    } else if n == "smile"@ {
        reveal_strlit("smile");
        assert(name_end(n, 0) == n.len());
    } else if n == "smiley"@ {
        reveal_strlit("smiley");
        assert(name_end(n, 0) == n.len());
    } else if n == "grin"@ {
        reveal_strlit("grin");
        assert(name_end(n, 0) == n.len());
    } else if n == "grinning"@ {
        reveal_strlit("grinning");
        assert(name_end(n, 0) == n.len());
    } else if n == "joy"@ {
        reveal_strlit("joy");
        assert(name_end(n, 0) == n.len());
    } else if n == "rofl"@ {
        reveal_strlit("rofl");
        assert(name_end(n, 0) == n.len());
    } else if n == "laughing"@ {
        reveal_strlit("laughing");
        assert(name_end(n, 0) == n.len());
    } else if n == "sweat_smile"@ {
        reveal_strlit("sweat_smile");
        assert(name_end(n, 0) == n.len());
    } else if n == "wink"@ {
        reveal_strlit("wink");
        assert(name_end(n, 0) == n.len());
    } else if n == "blush"@ {
        reveal_strlit("blush");
        assert(name_end(n, 0) == n.len());
    } else if n == "innocent"@ {
        reveal_strlit("innocent");
        assert(name_end(n, 0) == n.len());
    } else if n == "thinking"@ {
        reveal_strlit("thinking");
        assert(name_end(n, 0) == n.len());
    } else if n == "neutral_face"@ {
        reveal_strlit("neutral_face");
        assert(name_end(n, 0) == n.len());
    } else if n == "expressionless"@ {
        reveal_strlit("expressionless");
        assert(name_end(n, 0) == n.len());
    } else if n == "no_mouth"@ {
        reveal_strlit("no_mouth");
        assert(name_end(n, 0) == n.len());
    } else if n == "smirk"@ {
        reveal_strlit("smirk");
        assert(name_end(n, 0) == n.len());
    } else if n == "unamused"@ {
        reveal_strlit("unamused");
        assert(name_end(n, 0) == n.len());
    } else if n == "roll_eyes"@ {
        reveal_strlit("roll_eyes");
        assert(name_end(n, 0) == n.len());
    } else if n == "grimacing"@ {
        reveal_strlit("grimacing");
        assert(name_end(n, 0) == n.len());
    } else if n == "face_with_raised_eyebrow"@ {
        reveal_strlit("face_with_raised_eyebrow");
        assert(name_end(n, 0) == n.len());
    } else if n == "confused"@ {
        reveal_strlit("confused");
        assert(name_end(n, 0) == n.len());
    } else if n == "worried"@ {
        reveal_strlit("worried");
        assert(name_end(n, 0) == n.len());
    } else if n == "frowning"@ {
        reveal_strlit("frowning");
        assert(name_end(n, 0) == n.len());
    } else if n == "anguished"@ {
        reveal_strlit("anguished");
        assert(name_end(n, 0) == n.len());
    } else if n == "open_mouth"@ {
        reveal_strlit("open_mouth");
        assert(name_end(n, 0) == n.len());
    } else if n == "hushed"@ {
        reveal_strlit("hushed");
        assert(name_end(n, 0) == n.len());
    } else if n == "astonished"@ {
        reveal_strlit("astonished");
        assert(name_end(n, 0) == n.len());
    } else if n == "scream"@ {
        reveal_strlit("scream");
        assert(name_end(n, 0) == n.len());
    } else if n == "tired_face"@ {
        reveal_strlit("tired_face");
        assert(name_end(n, 0) == n.len());
    } else if n == "weary"@ {
        reveal_strlit("weary");
        assert(name_end(n, 0) == n.len());
    } else if n == "sleepy"@ {
        reveal_strlit("sleepy");
        assert(name_end(n, 0) == n.len());
    } else if n == "sleeping"@ {
        reveal_strlit("sleeping");
        assert(name_end(n, 0) == n.len());
    } else if n == "yum"@ {
        reveal_strlit("yum");
        assert(name_end(n, 0) == n.len());
    } else if n == "stuck_out_tongue"@ {
        reveal_strlit("stuck_out_tongue");
        assert(name_end(n, 0) == n.len());
    } else if n == "stuck_out_tongue_winking_eye"@ {
        reveal_strlit("stuck_out_tongue_winking_eye");
        assert(name_end(n, 0) == n.len());
    } else if n == "zany_face"@ {
        reveal_strlit("zany_face");
        assert(name_end(n, 0) == n.len());
    } else if n == "face_with_hand_over_mouth"@ {
        reveal_strlit("face_with_hand_over_mouth");
        assert(name_end(n, 0) == n.len());
    } else if n == "shushing_face"@ {
        reveal_strlit("shushing_face");
        assert(name_end(n, 0) == n.len());
    } else if n == "face_with_monocle"@ {
        reveal_strlit("face_with_monocle");
        assert(name_end(n, 0) == n.len());
    } else if n == "nerd_face"@ {
        reveal_strlit("nerd_face");
        assert(name_end(n, 0) == n.len());
    } else if n == "sunglasses"@ {
        reveal_strlit("sunglasses");
        assert(name_end(n, 0) == n.len());
    } else if n == "star_struck"@ {
        reveal_strlit("star_struck");
        assert(name_end(n, 0) == n.len());
    } else if n == "partying_face"@ {
        reveal_strlit("partying_face");
        assert(name_end(n, 0) == n.len());
    } else if n == "cry"@ {
        reveal_strlit("cry");
        assert(name_end(n, 0) == n.len());
    } else if n == "sob"@ {
        reveal_strlit("sob");
        assert(name_end(n, 0) == n.len());
    } else if n == "rage"@ {
        reveal_strlit("rage");
        assert(name_end(n, 0) == n.len());
    } else if n == "angry"@ {
        reveal_strlit("angry");
        assert(name_end(n, 0) == n.len());
    } else if n == "triumph"@ {
        reveal_strlit("triumph");
        assert(name_end(n, 0) == n.len());
    } else if n == "imp"@ {
        reveal_strlit("imp");
        assert(name_end(n, 0) == n.len());
    } else if n == "smiling_imp"@ {
        reveal_strlit("smiling_imp");
        assert(name_end(n, 0) == n.len());
    } else if n == "skull"@ {
        reveal_strlit("skull");
        assert(name_end(n, 0) == n.len());
    } else if n == "skull_and_crossbones"@ {
        reveal_strlit("skull_and_crossbones");
        assert(name_end(n, 0) == n.len());
    } else if n == "alien"@ {
        reveal_strlit("alien");
        assert(name_end(n, 0) == n.len());
    } else if n == "robot"@ {
        reveal_strlit("robot");
        assert(name_end(n, 0) == n.len());
    } else if n == "ghost"@ {
        reveal_strlit("ghost");
        assert(name_end(n, 0) == n.len());
    } else if n == "computer"@ {
        reveal_strlit("computer");
        assert(name_end(n, 0) == n.len());
    } else if n == "desktop_computer"@ {
        reveal_strlit("desktop_computer");
        assert(name_end(n, 0) == n.len());
    } else if n == "keyboard"@ {
        reveal_strlit("keyboard");
        assert(name_end(n, 0) == n.len());
    } else if n == "mouse"@ {
        reveal_strlit("mouse");
        assert(name_end(n, 0) == n.len());
    } else if n == "iphone"@ {
        reveal_strlit("iphone");
        assert(name_end(n, 0) == n.len());
    } else if n == "phone"@ {
        reveal_strlit("phone");
        assert(name_end(n, 0) == n.len());
    } else if n == "telephone"@ {
        reveal_strlit("telephone");
        assert(name_end(n, 0) == n.len());
    } else if n == "package"@ {
        reveal_strlit("package");
        assert(name_end(n, 0) == n.len());
    } else if n == "memo"@ {
        reveal_strlit("memo");
        assert(name_end(n, 0) == n.len());
    } else if n == "pencil"@ {
        reveal_strlit("pencil");
        assert(name_end(n, 0) == n.len());
    } else if n == "pencil2"@ {
        reveal_strlit("pencil2");
        assert(name_end(n, 0) == n.len());
    } else if n == "bulb"@ {
        reveal_strlit("bulb");
        assert(name_end(n, 0) == n.len());
    } else if n == "wrench"@ {
        reveal_strlit("wrench");
        assert(name_end(n, 0) == n.len());
    } else if n == "hammer"@ {
        reveal_strlit("hammer");
        assert(name_end(n, 0) == n.len());
    } else if n == "hammer_and_wrench"@ {
        reveal_strlit("hammer_and_wrench");
        assert(name_end(n, 0) == n.len());
    } else if n == "gear"@ {
        reveal_strlit("gear");
        assert(name_end(n, 0) == n.len());
    } else if n == "nut_and_bolt"@ {
        reveal_strlit("nut_and_bolt");
        assert(name_end(n, 0) == n.len());
    } else if n == "bug"@ {
        reveal_strlit("bug");
        assert(name_end(n, 0) == n.len());
    } else if n == "lock"@ {
        reveal_strlit("lock");
        assert(name_end(n, 0) == n.len());
    } else if n == "unlock"@ {
        reveal_strlit("unlock");
        assert(name_end(n, 0) == n.len());
    } else if n == "key"@ {
        reveal_strlit("key");
        assert(name_end(n, 0) == n.len());
    } else if n == "shield"@ {
        reveal_strlit("shield");
        assert(name_end(n, 0) == n.len());
    } else if n == "satellite"@ {
        reveal_strlit("satellite");
        assert(name_end(n, 0) == n.len());
    } else if n == "zap"@ {
        reveal_strlit("zap");
        assert(name_end(n, 0) == n.len());
    } else if n == "boom"@ {
        reveal_strlit("boom");
        assert(name_end(n, 0) == n.len());
    } else if n == "bomb"@ {
        reveal_strlit("bomb");
        assert(name_end(n, 0) == n.len());
    } else if n == "link"@ {
        reveal_strlit("link");
        assert(name_end(n, 0) == n.len());
    } else if n == "paperclip"@ {
        reveal_strlit("paperclip");
        assert(name_end(n, 0) == n.len());
    } else if n == "books"@ {
        reveal_strlit("books");
        assert(name_end(n, 0) == n.len());
    } else if n == "book"@ {
        reveal_strlit("book");
        assert(name_end(n, 0) == n.len());
    } else if n == "page_facing_up"@ {
        reveal_strlit("page_facing_up");
        assert(name_end(n, 0) == n.len());
    } else if n == "scroll"@ {
        reveal_strlit("scroll");
        assert(name_end(n, 0) == n.len());
    } else if n == "clipboard"@ {
        reveal_strlit("clipboard");
        assert(name_end(n, 0) == n.len());
    } else if n == "calendar"@ {
        reveal_strlit("calendar");
        assert(name_end(n, 0) == n.len());
    } else if n == "stopwatch"@ {
        reveal_strlit("stopwatch");
        assert(name_end(n, 0) == n.len());
    } else if n == "alarm_clock"@ {
        reveal_strlit("alarm_clock");
        assert(name_end(n, 0) == n.len());
    } else if n == "hourglass"@ {
        reveal_strlit("hourglass");
        assert(name_end(n, 0) == n.len());
    } else if n == "hourglass_flowing_sand"@ {
        reveal_strlit("hourglass_flowing_sand");
        assert(name_end(n, 0) == n.len());
    } else if n == "star"@ {
        reveal_strlit("star");
        assert(name_end(n, 0) == n.len());
    } else if n == "star2"@ {
        reveal_strlit("star2");
        assert(name_end(n, 0) == n.len());
    } else if n == "trophy"@ {
        reveal_strlit("trophy");
        assert(name_end(n, 0) == n.len());
    } else if n == "medal_sports"@ {
        reveal_strlit("medal_sports");
        assert(name_end(n, 0) == n.len());
    } else if n == "first_place_medal"@ {
        reveal_strlit("first_place_medal");
        assert(name_end(n, 0) == n.len());
    } else if n == "second_place_medal"@ {
        reveal_strlit("second_place_medal");
        assert(name_end(n, 0) == n.len());
    } else if n == "third_place_medal"@ {
        reveal_strlit("third_place_medal");
        assert(name_end(n, 0) == n.len());
    } else if n == "crown"@ {
        reveal_strlit("crown");
        assert(name_end(n, 0) == n.len());
    } else if n == "gem"@ {
        reveal_strlit("gem");
        assert(name_end(n, 0) == n.len());
    } else if n == "moneybag"@ {
        reveal_strlit("moneybag");
        assert(name_end(n, 0) == n.len());
    } else if n == "dollar"@ {
        reveal_strlit("dollar");
        assert(name_end(n, 0) == n.len());
    } else if n == "arrow_up"@ {
        reveal_strlit("arrow_up");
        assert(name_end(n, 0) == n.len());
    } else if n == "arrow_down"@ {
        reveal_strlit("arrow_down");
        assert(name_end(n, 0) == n.len());
    } else if n == "arrow_left"@ {
        reveal_strlit("arrow_left");
        assert(name_end(n, 0) == n.len());
    } else if n == "arrow_right"@ {
        reveal_strlit("arrow_right");
        assert(name_end(n, 0) == n.len());
    } else if n == "arrow_upper_right"@ {
        reveal_strlit("arrow_upper_right");
        assert(name_end(n, 0) == n.len());
    } else if n == "arrow_lower_right"@ {
        reveal_strlit("arrow_lower_right");
        assert(name_end(n, 0) == n.len());
    } else if n == "arrow_upper_left"@ {
        reveal_strlit("arrow_upper_left");
        assert(name_end(n, 0) == n.len());
    } else if n == "arrow_lower_left"@ {
        reveal_strlit("arrow_lower_left");
        assert(name_end(n, 0) == n.len());
    } else if n == "arrows_clockwise"@ {
        reveal_strlit("arrows_clockwise");
        assert(name_end(n, 0) == n.len());
    } else if n == "arrows_counterclockwise"@ {
        reveal_strlit("arrows_counterclockwise");
        assert(name_end(n, 0) == n.len());
    } else if n == "leftwards_arrow_with_hook"@ {
        reveal_strlit("leftwards_arrow_with_hook");
        assert(name_end(n, 0) == n.len());
    } else if n == "arrow_right_hook"@ {
        reveal_strlit("arrow_right_hook");
        assert(name_end(n, 0) == n.len());
    } else if n == "point_up"@ {
        reveal_strlit("point_up");
        assert(name_end(n, 0) == n.len());
    } else if n == "point_down"@ {
        reveal_strlit("point_down");
        assert(name_end(n, 0) == n.len());
    } else if n == "point_left"@ {
        reveal_strlit("point_left");
        assert(name_end(n, 0) == n.len());
    } else if n == "point_right"@ {
        reveal_strlit("point_right");
        assert(name_end(n, 0) == n.len());
    } else if n == "coffee"@ {
        reveal_strlit("coffee");
        assert(name_end(n, 0) == n.len());
    } else if n == "beer"@ {
        reveal_strlit("beer");
        assert(name_end(n, 0) == n.len());
    } else if n == "pizza"@ {
        reveal_strlit("pizza");
        assert(name_end(n, 0) == n.len());
    } else if n == "poop"@ {
        reveal_strlit("poop");
        assert(name_end(n, 0) == n.len());
    } else if n == "shit"@ {
        reveal_strlit("shit");
        assert(name_end(n, 0) == n.len());
    } else if n == "hankey"@ {
        reveal_strlit("hankey");
        assert(name_end(n, 0) == n.len());
    } else if n == "tada_party"@ {
        reveal_strlit("tada_party");
        assert(name_end(n, 0) == n.len());
    } else if n == "balloon"@ {
        reveal_strlit("balloon");
        assert(name_end(n, 0) == n.len());
    } else if n == "gift"@ {
        reveal_strlit("gift");
        assert(name_end(n, 0) == n.len());
    } else if n == "art"@ {
        reveal_strlit("art");
        assert(name_end(n, 0) == n.len());
    } else if n == "rainbow"@ {
        reveal_strlit("rainbow");
        assert(name_end(n, 0) == n.len());
    } else if n == "sun"@ {
        reveal_strlit("sun");
        assert(name_end(n, 0) == n.len());
    } else if n == "sunny"@ {
        reveal_strlit("sunny");
        assert(name_end(n, 0) == n.len());
    } else if n == "cloud"@ {
        reveal_strlit("cloud");
        assert(name_end(n, 0) == n.len());
    } else if n == "snowflake"@ {
        reveal_strlit("snowflake");
        assert(name_end(n, 0) == n.len());
    } else if n == "umbrella"@ {
        reveal_strlit("umbrella");
        assert(name_end(n, 0) == n.len());
    } else if n == "earth_americas"@ {
        reveal_strlit("earth_americas");
        assert(name_end(n, 0) == n.len());
    } else if n == "earth_africa"@ {
        reveal_strlit("earth_africa");
        assert(name_end(n, 0) == n.len());
    } else if n == "earth_asia"@ {
        reveal_strlit("earth_asia");
        assert(name_end(n, 0) == n.len());
    } else if n == "dog"@ {
        reveal_strlit("dog");
        assert(name_end(n, 0) == n.len());
    } else if n == "cat"@ {
        reveal_strlit("cat");
        assert(name_end(n, 0) == n.len());
    } else if n == "fox_face"@ {
        reveal_strlit("fox_face");
        assert(name_end(n, 0) == n.len());
    } else if n == "lion"@ {
        reveal_strlit("lion");
        assert(name_end(n, 0) == n.len());
    } else if n == "monkey"@ {
        reveal_strlit("monkey");
        assert(name_end(n, 0) == n.len());
    } else if n == "see_no_evil"@ {
        reveal_strlit("see_no_evil");
        assert(name_end(n, 0) == n.len());
    } else if n == "hear_no_evil"@ {
        reveal_strlit("hear_no_evil");
        assert(name_end(n, 0) == n.len());
    } else if n == "speak_no_evil"@ {
        reveal_strlit("speak_no_evil");
        assert(name_end(n, 0) == n.len());
    } else if n == "panda_face"@ {
        reveal_strlit("panda_face");
        assert(name_end(n, 0) == n.len());
    } else if n == "penguin"@ {
        reveal_strlit("penguin");
        assert(name_end(n, 0) == n.len());
    } else if n == "owl"@ {
        reveal_strlit("owl");
        assert(name_end(n, 0) == n.len());
    } else if n == "snail"@ {
        reveal_strlit("snail");
        assert(name_end(n, 0) == n.len());
    } else if n == "ant"@ {
        reveal_strlit("ant");
        assert(name_end(n, 0) == n.len());
    } else if n == "honeybee"@ {
        reveal_strlit("honeybee");
        assert(name_end(n, 0) == n.len());
    } else if n == "butterfly"@ {
        reveal_strlit("butterfly");
        assert(name_end(n, 0) == n.len());
    } else if n == "octopus"@ {
        reveal_strlit("octopus");
        assert(name_end(n, 0) == n.len());
    } else if n == "seedling"@ {
        reveal_strlit("seedling");
        assert(name_end(n, 0) == n.len());
    } else if n == "evergreen_tree"@ {
        reveal_strlit("evergreen_tree");
        assert(name_end(n, 0) == n.len());
    } else if n == "deciduous_tree"@ {
        reveal_strlit("deciduous_tree");
        assert(name_end(n, 0) == n.len());
    } else if n == "palm_tree"@ {
        reveal_strlit("palm_tree");
        assert(name_end(n, 0) == n.len());
    } else if n == "cactus"@ {
        reveal_strlit("cactus");
        assert(name_end(n, 0) == n.len());
    } else if n == "herb"@ {
        reveal_strlit("herb");
        assert(name_end(n, 0) == n.len());
    } else if n == "leaves"@ {
        reveal_strlit("leaves");
        assert(name_end(n, 0) == n.len());
    } else if n == "rose"@ {
        reveal_strlit("rose");
        assert(name_end(n, 0) == n.len());
    } else if n == "cherry_blossom"@ {
        reveal_strlit("cherry_blossom");
        assert(name_end(n, 0) == n.len());
    } else if n == "sunflower"@ {
        reveal_strlit("sunflower");
        assert(name_end(n, 0) == n.len());
    } else if n == "apple"@ {
        reveal_strlit("apple");
        assert(name_end(n, 0) == n.len());
    } else if n == "red_apple"@ {
        reveal_strlit("red_apple");
        assert(name_end(n, 0) == n.len());
    } else if n == "banana"@ {
        reveal_strlit("banana");
        assert(name_end(n, 0) == n.len());
    } else if n == "cake"@ {
        reveal_strlit("cake");
        assert(name_end(n, 0) == n.len());
    } else if n == "cookie"@ {
        reveal_strlit("cookie");
        assert(name_end(n, 0) == n.len());
    } else if n == "doughnut"@ {
        reveal_strlit("doughnut");
        assert(name_end(n, 0) == n.len());
    } else if n == "icecream"@ {
        reveal_strlit("icecream");
        assert(name_end(n, 0) == n.len());
    } else if n == "chocolate_bar"@ {
        reveal_strlit("chocolate_bar");
        assert(name_end(n, 0) == n.len());
    }
}

/// Past a run of name characters, the run read from one character
/// before ends one character later.
proof fn lemma_name_end_shift(n: Seq<char>, i: int)
    requires
        0 <= i <= n.len(),
        name_end(n, i) == n.len(),
    ensures
        name_end(seq![':'] + n + seq![':'], i + 1) == n.len() + 1,
    decreases n.len() - i,
{
    let s = seq![':'] + n + seq![':'];
    assert(s[i + 1] == if i < n.len() { n[i] } else { ':' });
    if i < n.len() {
        assert(is_name_char(n[i]));
        lemma_name_end_shift(n, i + 1);
    } else {
        assert(!is_name_char(':'));
    }
}

/// Every curated shortcode is replaced: a line that is exactly
/// `:name:` for a curated name becomes that name's emoji.
pub proof fn lemma_shortcode_replaced(n: Seq<char>)
    requires
        emoji_for(n) is Some,
    ensures
        shortcodes_from(seq![':'] + n + seq![':'], 0) == emoji_for(n).unwrap(),
{
    let s = seq![':'] + n + seq![':'];
    lemma_curated_name(n);
    lemma_name_end_shift(n, 0);
    let j: int = n.len() as int + 1;
    assert(s[0] == ':');
    assert(s[j] == ':');
    assert(s.subrange(1, j) =~= n);
    assert(shortcodes_from(s, j + 1) == Seq::<char>::empty());
    assert(emoji_for(n).unwrap() + Seq::<char>::empty() =~= emoji_for(n).unwrap());
}

fn name_end_exec(s: &[char], j: usize) -> (r: usize)
    requires
        j <= s@.len(),
    ensures
        r == name_end(s@, j as int),
{
    let mut k = j;
    while k < s.len() && ((s[k] >= 'a' && s[k] <= 'z') || (s[k] >= 'A' && s[k] <= 'Z') || (s[k] >= '0' && s[k] <= '9')
        || s[k] == '_' || s[k] == '+' || s[k] == '-')
        invariant
            j <= k <= s@.len(),
            name_end(s@, j as int) == name_end(s@, k as int),
        decreases s@.len() - k,
    {
        k = k + 1;
    }
    k
}

/// Replace the `:shortcode:` spans of one line by their emoji; unknown
/// names and lone colons stay as they are.
pub fn replace_shortcodes_in_line(line: &str) -> (r: String)
    ensures
        r@ == shortcodes_from(line@, 0),
{
    let s = chars_of(line);
    let n = s.len();
    let mut out: Vec<char> = Vec::new();
    let mut i: usize = 0;
    while i < n
        invariant
            n == s@.len(),
            s@ == line@,
            i <= n,
            shortcodes_from(s@, 0) == out@ + shortcodes_from(s@, i as int),
        decreases n - i,
    {
        let ghost before = out@;
        if s[i] == ':' {
            let j = name_end_exec(s.as_slice(), i + 1);
            proof {
                lemma_name_end(s@, i + 1);
            }
            if j < n && s[j] == ':' && j > i + 1 {
                let name = string_of(crate::text::slice_vec(s.as_slice(), i + 1, j).as_slice());
                match lookup_emoji(name.as_str()) {
                    Some(e) => {
                        push_str(&mut out, e);
                        assert(out@ =~= before + emoji_for(s@.subrange(i + 1, j as int)).unwrap());
                        i = j + 1;
                        continue;
                    },
                    None => {},
                }
            }
            out.push(':');
            assert(out@ =~= before + seq![':']);
            i = i + 1;
        } else {
            out.push(s[i]);
            assert(out@ =~= before + seq![s@[i as int]]);
            i = i + 1;
        }
    }
    assert(out@ + Seq::<char>::empty() =~= out@);
    string_of(out.as_slice())
}

/// Whether a trimmed line opens or closes a code fence.
pub open spec fn is_fence(l: Seq<char>) -> bool {
    starts_with(trim(l), "```"@)
}

/// The lines from `ls` on with shortcodes replaced outside fenced code
/// blocks, each followed by a line end.
pub open spec fn emoji_lines(ls: Seq<Seq<char>>, in_fence: bool) -> Seq<char>
    decreases ls.len(),
{
    if ls.len() == 0 {
        seq![]
    } else {
        let l = ls[0];
        let rest = ls.drop_first();
        if in_fence {
            l + seq!['\n'] + emoji_lines(rest, !is_fence(l))
        } else if is_fence(l) {
            l + seq!['\n'] + emoji_lines(rest, true)
        } else {
            shortcodes_from(l, 0) + seq!['\n'] + emoji_lines(rest, false)
        }
    }
}

/// Replace `:shortcode:` emoji on every line outside a fenced code block
/// (any ``` fence: mermaid, a language or none).
pub fn preprocess_emoji(text: &str) -> (r: String)
    ensures
        r@ == emoji_lines(lines(text@), false),
{
    let v = chars_of(text);
    let ls = lines_of(v.as_slice());
    let ghost lv = views(ls@);
    let mut out: Vec<char> = Vec::new();
    let mut in_fence = false;
    let mut i: usize = 0;
    assert(lv.skip(0) =~= lv);
    while i < ls.len()
        invariant
            lv == views(ls@),
            lv == lines(text@),
            i <= ls@.len(),
            emoji_lines(lv, false) == out@ + emoji_lines(lv.skip(i as int), in_fence),
        decreases ls@.len() - i,
    {
        let line = &ls[i];
        let ghost rest = lv.skip(i as int);
        assert(rest[0] == line@);
        assert(rest.drop_first() =~= lv.skip(i + 1));
        assert(lv[i as int] == line@);
        let ghost before = out@;
        let ghost was = in_fence;
        let t = trimmed(line.as_slice());
        let fence = starts_with_str(t.as_slice(), "```");
        if in_fence {
            push_all(&mut out, line.as_slice());
            out.push('\n');
            if fence {
                in_fence = false;
            }
        } else if fence {
            in_fence = true;
            push_all(&mut out, line.as_slice());
            out.push('\n');
        } else {
            let r = replace_shortcodes_in_line(string_of(line.as_slice()).as_str());
            let rv = chars_of(r.as_str());
            push_all(&mut out, rv.as_slice());
            out.push('\n');
        }
        assert(before + emoji_lines(rest, was) =~= out@ + emoji_lines(lv.skip(i + 1), in_fence));
        i = i + 1;
    }
    assert(lv.skip(i as int) =~= Seq::<Seq<char>>::empty());
    assert(out@ + Seq::<char>::empty() =~= out@);
    string_of(out.as_slice())
}

} // verus!
