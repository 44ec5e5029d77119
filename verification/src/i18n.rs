//! Translated messages with named placeholders, and where translations are
//! found.

use crate::text;
use vstd::prelude::*;

verus! {

/// The name of the message catalogue.
pub const DOMAIN: &'static str = "photoscanner";

/// Where a catalogue lies within the directory of its language.
pub const CATALOG: &'static str = "LC_MESSAGES/photoscanner.mo";

/// Whether a text has no zero character.
pub open spec fn has_no_zero(s: Seq<char>) -> bool {
    forall|i: int| 0 <= i < s.len() ==> #[trigger] s[i] != '\0'
}

/// Whether a text is what looking a message up gives under some locale and
/// catalogue. One message has many such texts: its translations, and itself.
pub uninterp spec fn is_translation(message: Seq<char>, text: Seq<char>) -> bool;

/// `gettextrs::gettext` looks a message up in the catalogue of the process's
/// locale. What is claimed is that this message was looked up, and that the
/// answer, which comes as a C string, has no zero character. Which of the
/// message's translations it is depends on the locale and on the catalogue, and
/// is not stated. The call panics on a message with a zero character, which is
/// left out here, and on a catalogue that is not in UTF-8, which the program's
/// start rules out by asking for UTF-8.
#[verifier::external_body]
fn translated(message: &str) -> (r: String)
    requires
        has_no_zero(message@),
    ensures
        is_translation(message@, r@),
        has_no_zero(r@),
{
    gettextrs::gettext(message)
}

/// Whether a text is what looking a message with two forms up for a number gives
/// under some locale and catalogue.
pub uninterp spec fn is_plural_translation(
    singular: Seq<char>,
    plural: Seq<char>,
    count: u32,
    text: Seq<char>,
) -> bool;

/// `gettextrs::ngettext` looks up the form of a message for a number. What is
/// claimed is that these forms were looked up for this number, and that the
/// answer, which comes as a C string, has no zero character. Which translation
/// it is depends on the locale and on the catalogue, and is not stated. As with
/// one form, zero characters are left out, and a catalogue that is not in UTF-8
/// makes the call panic.
#[verifier::external_body]
fn translated_plural(singular: &str, plural: &str, count: u32) -> (r: String)
    requires
        has_no_zero(singular@),
        has_no_zero(plural@),
    ensures
        is_plural_translation(singular@, plural@, count, r@),
        has_no_zero(r@),
{
    gettextrs::ngettext(singular, plural, count)
}

/// A placeholder: a name in braces.
pub open spec fn placeholder(name: Seq<char>) -> Seq<char> {
    seq!['{'] + name + seq!['}']
}

/// The views of named values.
pub open spec fn argument_views(arguments: Seq<(&str, String)>) -> Seq<(Seq<char>, Seq<char>)> {
    arguments.map_values(|pair: (&str, String)| (pair.0@, pair.1@))
}

/// A message with its placeholders replaced by values, one name after the
/// other.
pub open spec fn filled(message: Seq<char>, arguments: Seq<(Seq<char>, Seq<char>)>) -> Seq<char>
    decreases arguments.len(),
{
    if arguments.len() == 0 {
        message
    } else {
        let (name, value) = arguments.last();
        text::replaced(filled(message, arguments.drop_last()), placeholder(name), value)
    }
}

/// Replaces the placeholders of a message by values, one name after the other.
pub fn fill(message: &str, arguments: &[(&str, String)]) -> (r: String)
    ensures
        r@ == filled(message@, argument_views(arguments@)),
{
    let ghost values = argument_views(arguments@);
    let mut chars = text::characters(message);
    let mut i: usize = 0;
    assert(values.take(0) =~= Seq::<(Seq<char>, Seq<char>)>::empty());
    while i < arguments.len()
        invariant
            i <= arguments.len(),
            values == argument_views(arguments@),
            chars@ == filled(message@, values.take(i as int)),
        decreases arguments.len() - i,
    {
        let mut wanted: Vec<char> = Vec::new();
        wanted.push('{');
        text::push_all(&mut wanted, &text::characters(arguments[i].0));
        wanted.push('}');
        let value = text::characters(&arguments[i].1);
        proof {
            assert(wanted@ =~= placeholder(arguments@[i as int].0@));
            assert(values.take(i + 1).drop_last() =~= values.take(i as int));
            assert(values.take(i + 1).last() == (
                arguments@[i as int].0@,
                arguments@[i as int].1@,
            ));
        }
        chars = text::replace(&chars, &wanted, &value);
        i += 1;
    }
    assert(values.take(values.len() as int) =~= values);
    text::text_of(&chars)
}

/// Translates a message: what looking it up gives is returned as it is, and can
/// be handed on as a C string. Which translation that is depends on the locale.
pub fn tr(message: &str) -> (r: String)
    requires
        has_no_zero(message@),
    ensures
        is_translation(message@, r@),
        has_no_zero(r@),
{
    translated(message)
}

/// Translates a message and replaces its placeholders by values: whatever the
/// translation of this message is, all placeholders in it are replaced.
pub fn tr_args(message: &str, arguments: &[(&str, String)]) -> (r: String)
    requires
        has_no_zero(message@),
    ensures
        exists|translation: Seq<char>|
            is_translation(message@, translation) && r@ == #[trigger] filled(
                translation,
                argument_views(arguments@),
            ),
{
    let translation = translated(message);
    fill(&translation, arguments)
}

/// Replaces the placeholder for a number.
pub fn fill_count(message: &str, count: usize) -> (r: String)
    ensures
        r@ == text::replaced(message@, placeholder("count"@), text::decimal(count as nat)),
{
    let mut wanted: Vec<char> = Vec::new();
    wanted.push('{');
    text::push_all(&mut wanted, &text::characters("count"));
    wanted.push('}');
    assert(wanted@ =~= placeholder("count"@));
    let digits = text::to_decimal(count as u64);
    text::text_of(&text::replace(&text::characters(message), &wanted, &digits))
}

/// The number that the form of a message is chosen for: the lowest 32 bits.
pub open spec fn form_number(count: usize) -> u32 {
    (count as u64 % 0x1_0000_0000) as u32
}

/// Translates a message for a number and replaces the placeholder for it:
/// whatever the translation of this message for the number is, every such
/// placeholder in it is replaced.
pub fn trn(singular: &str, plural: &str, count: usize) -> (r: String)
    requires
        has_no_zero(singular@),
        has_no_zero(plural@),
    ensures
        exists|translation: Seq<char>|
            is_plural_translation(singular@, plural@, form_number(count), translation) && r@
                == #[trigger] text::replaced(
                translation,
                placeholder("count"@),
                text::decimal(count as nat),
            ),
{
    let low: u32 = (count as u64 % 0x1_0000_0000) as u32;
    let translation = translated_plural(singular, plural, low);
    fill_count(&translation, count)
}

/// A name within a directory.
pub open spec fn joined(directory: Seq<char>, name: Seq<char>) -> Seq<char> {
    if directory.len() == 0 || directory.last() == '/' {
        directory + name
    } else {
        directory + seq!['/'] + name
    }
}

/// A name within a directory.
pub fn join(directory: &str, name: &str) -> (r: String)
    ensures
        r@ == joined(directory@, name@),
{
    let mut chars = text::characters(directory);
    if chars.len() > 0 && chars[chars.len() - 1] != '/' {
        chars.push('/');
    }
    text::push_all(&mut chars, &text::characters(name));
    assert(chars@ =~= joined(directory@, name@));
    text::text_of(&chars)
}

/// The directory for translations that a user has installed, below the user's
/// data directory.
pub fn user_locale_directory(data_directory: Option<&str>) -> (r: String)
    ensures
        r@ == match data_directory {
            Some(directory) => joined(directory@, "locale"@),
            None => joined(".local/share"@, "locale"@),
        },
{
    match data_directory {
        Some(directory) => join(directory, "locale"),
        None => join(".local/share", "locale"),
    }
}

/// The directory that translations are taken from: the one that was asked for,
/// else the user's if it has a catalogue, else the system's.
pub fn locale_directory(asked_for: Option<&str>, user: &str, user_has_catalog: bool) -> (r: String)
    ensures
        r@ == match asked_for {
            Some(directory) => directory@,
            None => if user_has_catalog {
                user@
            } else {
                "/usr/share/locale"@
            },
        },
{
    match asked_for {
        Some(directory) => directory.to_string(),
        None => if user_has_catalog {
            user.to_string()
        } else {
            "/usr/share/locale".to_string()
        },
    }
}

/// Whether a directory holds a catalogue, given for each of its entries whether
/// the catalogue's file is there.
pub fn contains_catalog(entries: &Vec<bool>) -> (r: bool)
    ensures
        r == exists|i: int| 0 <= i < entries@.len() && entries@[i],
{
    let mut i: usize = 0;
    while i < entries.len()
        invariant
            i <= entries.len(),
            forall|j: int| 0 <= j < i ==> !entries@[j],
        decreases entries.len() - i,
    {
        if entries[i] {
            return true;
        }
        i += 1;
    }
    false
}

/// A message without the placeholder for a number stays as it is.
pub proof fn lemma_fill_keeps_other_text(message: Seq<char>, name: Seq<char>, value: Seq<char>)
    requires
        forall|i: int| 0 <= i < message.len() ==> !text::has_at(message, i, placeholder(name)),
    ensures
        text::replaced(message, placeholder(name), value) == message,
    decreases message.len(),
{
    let wanted = placeholder(name);
    if message.len() > 0 {
        let rest = message.skip(1);
        assert(!text::has_at(message, 0, wanted));
        assert forall|i: int| 0 <= i < rest.len() implies !text::has_at(rest, i, wanted) by {
            assert(!text::has_at(message, i + 1, wanted));
            if i + wanted.len() <= rest.len() {
                assert(rest.subrange(i, i + wanted.len()) =~= message.subrange(
                    i + 1,
                    i + 1 + wanted.len(),
                ));
            }
        }
        lemma_fill_keeps_other_text(rest, name, value);
        assert(seq![message[0]] + rest =~= message);
    }
}

/// A value takes the place of its name in braces, as often as that occurs, and
/// the text around it stays.
pub proof fn lemma_filling(
    before: Seq<char>,
    name: Seq<char>,
    value: Seq<char>,
    after: Seq<char>,
)
    requires
        forall|i: int| 0 <= i < before.len() ==> before[i] != '{',
        forall|i: int| 0 <= i < name.len() ==> name[i] != '{',
    ensures
        placeholder(name) == "{"@ + name + "}"@,
        filled(before + "{"@ + name + "}"@ + after, seq![(name, value)]) == before + value + filled(
            after,
            seq![(name, value)],
        ),
        filled(after, Seq::empty()) == after,
{
    reveal_strlit("{");
    reveal_strlit("}");
    let part = placeholder(name);
    assert(part =~= "{"@ + name + "}"@);
    let message = before + "{"@ + name + "}"@ + after;
    assert(message =~= before + part + after);
    let arguments = seq![(name, value)];
    let none = Seq::<(Seq<char>, Seq<char>)>::empty();
    assert(arguments.drop_last() =~= none);
    assert(arguments.last() == (name, value));
    assert(filled(message, none) == message);
    assert(filled(after, none) == after);
    assert forall|i: int| 0 <= i < before.len() implies !#[trigger] text::has_at(
        before + part + after,
        i,
        part,
    ) by {
        text::lemma_found_text(before + part + after, i, part);
        assert(part[0] == '{');
    }
    text::lemma_replacing(before, part, value, after);
}

/// A name is put into a directory with exactly one separator between them.
pub proof fn lemma_joining(directory: Seq<char>, name: Seq<char>)
    ensures
        directory.len() > 0 && directory.last() != '/' ==> joined(directory, name) == directory + "/"@
            + name,
        directory.len() > 0 && directory.last() == '/' ==> joined(directory, name) == directory
            + name,
        directory.len() == 0 ==> joined(directory, name) == name,
{
    reveal_strlit("/");
    assert("/"@ =~= seq!['/']);
    if directory.len() == 0 {
        assert(directory + name =~= name);
    }
}

/// Translations are looked for where somebody asks for, else in their own
/// directory if it has any, else in that of the system.
pub proof fn lemma_locale_directories(
    asked_for: &str,
    user: &str,
    has_catalog: bool,
    chosen: String,
    found: String,
    missing: String,
    data: &str,
    own: String,
)
    requires
        call_ensures(locale_directory, (Some(asked_for), user, has_catalog), chosen),
        call_ensures(locale_directory, (None, user, true), found),
        call_ensures(locale_directory, (None, user, false), missing),
        call_ensures(user_locale_directory, (Some(data),), own),
    ensures
        chosen@ == asked_for@,
        found@ == user@,
        missing@ == "/usr/share/locale"@,
        own@ == joined(data@, "locale"@),
{
}

/// A translation with a number has the number in decimal digits in place of its
/// name.
pub proof fn lemma_counts_are_filled_in(message: &str, count: usize, r: String)
    requires
        call_ensures(fill_count, (message, count), r),
    ensures
        r@ == filled(message@, seq![("count"@, text::decimal(count as nat))]),
        count <= u32::MAX ==> form_number(count) == count,
        (count - form_number(count)) % 0x1_0000_0000 == 0,
{
    let arguments = seq![("count"@, text::decimal(count as nat))];
    let none = Seq::<(Seq<char>, Seq<char>)>::empty();
    assert(arguments.drop_last() =~= none);
    assert(filled(message@, none) == message@);
}

} // verus!
