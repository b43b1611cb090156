use colored::Colorize;
use vstd::prelude::*;
use vstd::string::*;

verus! {

/// The version that the banner shows.
pub const VERSION: &'static str = "0.1.0";

/// `text` between the terminal's escape sequence that switches the display
/// attributes `code` on and the one that resets them.
pub open spec fn painted(text: Seq<char>, code: Seq<char>) -> Seq<char> {
    seq!['\u{1b}', '['] + code + seq!['m'] + text + seq!['\u{1b}', '[', '0', 'm']
}

/// `out` shows `text` with the attributes `code`, or plainly: which of the two
/// depends on the terminal and the environment of the process.
pub open spec fn is_painted(out: Seq<char>, text: Seq<char>, code: Seq<char>) -> bool {
    out == text || out == painted(text, code)
}

/// The banner made of its three parts: the program's name, a rabbit, and
/// the version behind its label.
pub open spec fn banner_of(name: Seq<char>, label: Seq<char>, number: Seq<char>) -> Seq<char> {
    name + " \u{1F407} "@ + label + number
}

/// `msg` is the version banner: the program's name in bold cyan, a rabbit,
/// and the version in bold bright white behind a bold `v.`, each of them
/// painted or plain.
pub open spec fn is_version_banner(msg: Seq<char>) -> bool {
    exists|name: Seq<char>, label: Seq<char>, number: Seq<char>|
        {
            &&& is_painted(name, "BunnyHop"@, "1;36"@)
            &&& is_painted(label, "v."@, "1"@)
            &&& is_painted(number, VERSION@, "1;97"@)
            &&& msg == banner_of(name, label, number)
        }
}

/// `colored::Colorize::cyan` and `bold` on a `&str`, rendered by the
/// `Display` impl of `colored::ColoredString`. For a text without an escape
/// character, that impl writes the text alone where colouring is off, and
/// else the text between `ESC[1;36m` and `ESC[0m`.
#[verifier::external_body]
fn cyan_bold(text: &str) -> (out: String)
    ensures
        !text@.contains('\u{1b}') ==> is_painted(out@, text@, "1;36"@),
{
    text.cyan().bold().to_string()
}

/// `colored::Colorize::bold` on a `&str`, rendered by the `Display` impl of
/// `colored::ColoredString`. For a text without an escape character, that
/// impl writes the text alone where colouring is off, and else the text
/// between `ESC[1m` and `ESC[0m`.
#[verifier::external_body]
fn bold(text: &str) -> (out: String)
    ensures
        !text@.contains('\u{1b}') ==> is_painted(out@, text@, "1"@),
{
    text.bold().to_string()
}

/// `colored::Colorize::bright_white` and `bold` on a `&str`, rendered by the
/// `Display` impl of `colored::ColoredString`. For a text without an escape
/// character, that impl writes the text alone where colouring is off, and
/// else the text between `ESC[1;97m` and `ESC[0m`.
#[verifier::external_body]
fn bright_white_bold(text: &str) -> (out: String)
    ensures
        !text@.contains('\u{1b}') ==> is_painted(out@, text@, "1;97"@),
{
    text.bright_white().bold().to_string()
}

/// Puts the three parts of a banner together.
pub fn compose_banner(name: &str, label: &str, number: &str) -> (msg: String)
    ensures
        msg@ == banner_of(name@, label@, number@),
{
    let mut msg = name.to_owned();
    msg.append(" \u{1F407} ");
    msg.append(label);
    msg.append(number);
    msg
}

/// The banner that answers a question for the version, painted as the
/// terminal allows.
pub fn version_banner() -> (msg: String)
    ensures
        is_version_banner(msg@),
{
    proof {
        reveal_strlit("BunnyHop");
        reveal_strlit("v.");
        reveal_strlit("0.1.0");
    }
    let name = cyan_bold("BunnyHop");
    let label = bold("v.");
    let number = bright_white_bold(VERSION);
    compose_banner(name.as_str(), label.as_str(), number.as_str())
}

} // verus!
