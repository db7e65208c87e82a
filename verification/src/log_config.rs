//! The game's logging configuration: what it turns on, and how it has to be changed.
//!
//! Looking at a configuration never changes it. A change only adds or repairs the settings that
//! are needed; everything else, comments and indentation included, stays as it was.
use crate::ini::{
    char_place, find_char, find_value, flattened, has_section, header_name, is_for, lines_of, lookup,
    names_section, plain_key, plain_value, rows, section_lines, section_models, sections_come_back,
    section_is_for, sections_hold_all_lines, sections_of, settled, sound, split_sections, terminated,
    upsert_setting, upserted, upserting_keeps_others, upserting_keeps_sections,
    upserting_settled_changes_nothing, upserting_settles, written_lines_are_read, without_cr,
    written_sections_say_the_same, IniSection, SectionModel,
};
use crate::text::{
    self, all_digits, contains_part, decimal, digits_value, is_space, lower_ascii,
    lower_ascii_text, occurs_at, parsed_number, trimmed,
};
use vstd::prelude::*;

verus! {

/// The components whose logs are needed.
pub const LOGGING_COMPONENTS: [&'static str; 5] = [
    "LoadingScreen",
    "Power",
    "Zone",
    "Arena",
    "Asset",
];

/// The size limit for a component log, in kilobytes. The default of the game is so low that a
/// long session reaches it, and then all logs stop.
pub const LOG_FILE_SIZE_KB: u32 = 200_000;

/// The settings that a component needs.
pub open spec fn required_settings(component: Seq<char>) -> Seq<(Seq<char>, Seq<char>)> {
    let common = seq![
        ("LogLevel"@, "1"@),
        ("FilePrinting"@, "true"@),
        ("FileSize"@, decimal(LOG_FILE_SIZE_KB as nat)),
    ];
    if component == "Power"@ {
        common.push(("Verbose"@, "1"@))
    } else {
        common
    }
}

/// Lines with several settings.
pub open spec fn with_settings(
    lines: Seq<Seq<char>>,
    settings: Seq<(Seq<char>, Seq<char>)>,
) -> Seq<Seq<char>>
    decreases settings.len(),
{
    if settings.len() == 0 {
        lines
    } else {
        let (key, value) = settings.last();
        upserted(with_settings(lines, settings.drop_last()), key, value)
    }
}

/// The line that begins the section of a component.
pub open spec fn header_line(component: Seq<char>) -> Seq<char> {
    "["@ + component + "]"@
}

/// A section with the settings of a component, if it is that component's.
pub open spec fn repaired(section: SectionModel, component: Seq<char>) -> SectionModel {
    if is_for(section, component) {
        SectionModel {
            name: section.name,
            lines: with_settings(section.lines, required_settings(component)),
        }
    } else {
        section
    }
}

/// Sections with the settings of a component.
pub open spec fn with_component(sections: Seq<SectionModel>, component: Seq<char>) -> Seq<
    SectionModel,
> {
    if has_section(sections, component) {
        sections.map_values(|s: SectionModel| repaired(s, component))
    } else {
        sections.push(
            SectionModel {
                name: Some(component),
                lines: with_settings(seq![header_line(component)], required_settings(component)),
            },
        )
    }
}

/// Sections with the settings of the first components.
pub open spec fn with_components(sections: Seq<SectionModel>, n: int) -> Seq<SectionModel>
    decreases n,
{
    if n <= 0 {
        sections
    } else {
        with_component(with_components(sections, n - 1), LOGGING_COMPONENTS@[n - 1]@)
    }
}

/// What ends the lines of a text.
pub open spec fn line_ending(source: Seq<char>) -> Seq<char> {
    if contains_part(source, seq!['\r', '\n']) {
        seq!['\r', '\n']
    } else {
        seq!['\n']
    }
}

/// The sections of a configuration with everything that is needed.
pub open spec fn required_sections(source: Seq<char>) -> Seq<SectionModel> {
    with_components(sections_of(lines_of(source)), 5)
}

/// A configuration with everything that is needed.
pub open spec fn enabled_config(source: Seq<char>) -> Seq<char> {
    terminated(flattened(required_sections(source)), line_ending(source))
}

/// A setting that a component needs.
struct Setting {
    key: Vec<char>,
    value: Vec<char>,
}

spec fn setting_models(settings: Seq<Setting>) -> Seq<(Seq<char>, Seq<char>)> {
    settings.map_values(|s: Setting| (s.key@, s.value@))
}

fn required_component_settings(component: &str) -> (r: Vec<Setting>)
    ensures
        setting_models(r@) == required_settings(component@),
{
    let mut r: Vec<Setting> = Vec::new();
    r.push(Setting { key: text::chars_of("LogLevel"), value: text::chars_of("1") });
    r.push(Setting { key: text::chars_of("FilePrinting"), value: text::chars_of("true") });
    let size = text::decimal_text(LOG_FILE_SIZE_KB as u64);
    r.push(Setting { key: text::chars_of("FileSize"), value: text::chars_of(size.as_str()) });
    if text::str_eq(component, "Power") {
        r.push(Setting { key: text::chars_of("Verbose"), value: text::chars_of("1") });
    }
    assert(setting_models(r@) =~= required_settings(component@));
    r
}

fn apply_settings(lines: &mut Vec<Vec<char>>, settings: &Vec<Setting>)
    ensures
        rows(final(lines)@) == with_settings(rows(old(lines)@), setting_models(settings@)),
{
    let ghost all = setting_models(settings@);
    let ghost first = rows(lines@);
    let mut i: usize = 0;
    assert(all.take(0) =~= Seq::<(Seq<char>, Seq<char>)>::empty());
    while i < settings.len()
        invariant
            i <= settings.len(),
            all == setting_models(settings@),
            rows(lines@) == with_settings(first, all.take(i as int)),
        decreases settings.len() - i,
    {
        upsert_setting(lines, settings[i].key.as_slice(), settings[i].value.as_slice());
        proof {
            assert(all.take(i + 1).drop_last() =~= all.take(i as int));
            assert(all.take(i + 1).last() == all[i as int]);
        }
        i = i + 1;
    }
    assert(all.take(i as int) =~= all);
}

fn add_component(sections: Vec<IniSection>, component: &str) -> (r: Vec<IniSection>)
    ensures
        section_models(r@) == with_component(section_models(sections@), component@),
{
    let ghost all = section_models(sections@);
    let name = text::chars_of(component);
    let settings = required_component_settings(component);
    let mut rest = sections;
    let mut out: Vec<IniSection> = Vec::new();
    let mut found = false;
    let n: usize = rest.len();
    let mut i: usize = 0;
    while i < n
        invariant
            i <= n,
            n == rest.len(),
            n == all.len(),
            name@ == component@,
            setting_models(settings@) == required_settings(component@),
            forall|k: int| i <= k < n ==> (#[trigger] rest@[k])@ == all[k],
            out@.len() == i,
            forall|k: int| 0 <= k < i ==> (#[trigger] out@[k])@ == repaired(all[k], component@),
            found == exists|k: int| 0 <= k < i && is_for(#[trigger] all[k], component@),
        decreases n - i,
    {
        let mut section = IniSection { name: None, lines: Vec::new() };
        rest.set_and_swap(i, &mut section);
        assert(section@ == all[i as int]);
        if section_is_for(&section, name.as_slice()) {
            found = true;
            let IniSection { name: own, lines } = section;
            let mut lines = lines;
            apply_settings(&mut lines, &settings);
            section = IniSection { name: own, lines };
        }
        out.push(section);
        i = i + 1;
    }
    if found {
        assert(has_section(all, component@));
        assert(section_models(out@) =~= with_component(all, component@));
        return out;
    }
    assert(section_models(out@) =~= all) by {
        assert forall|k: int| 0 <= k < n implies section_models(out@)[k] == all[k] by {
            assert(!is_for(all[k], component@));
        }
    }
    let ghost before = out@;
    let mut header: Vec<char> = Vec::new();
    header.push('[');
    let mut k: usize = 0;
    while k < name.len()
        invariant
            k <= name.len(),
            header@ == seq!['['] + name@.take(k as int),
        decreases name.len() - k,
    {
        header.push(name[k]);
        assert(header@ =~= seq!['['] + name@.take(k + 1));
        k = k + 1;
    }
    header.push(']');
    proof {
        reveal_strlit("[");
        reveal_strlit("]");
        assert(name@.take(k as int) =~= name@);
        assert(header@ =~= header_line(component@));
    }
    let mut lines: Vec<Vec<char>> = Vec::new();
    lines.push(header);
    assert(rows(lines@) =~= seq![header_line(component@)]);
    apply_settings(&mut lines, &settings);
    let section = IniSection { name: Some(name), lines };
    out.push(section);
    assert(section_models(out@) =~= section_models(before).push(section@));
    out
}

fn push_rows(out: &mut String, lines: &Vec<Vec<char>>, ending: &str)
    ensures
        final(out)@ == old(out)@ + terminated(rows(lines@), ending@),
{
    let ghost first = out@;
    let ghost all = rows(lines@);
    let mut i: usize = 0;
    proof {
        assert(all.skip(0) =~= all);
    }
    while i < lines.len()
        invariant
            i <= lines.len(),
            all == rows(lines@),
            out@ + terminated(all.skip(i as int), ending@) == first + terminated(all, ending@),
        decreases lines.len() - i,
    {
        let ghost before = out@;
        let row = text::string_of(lines[i].as_slice());
        out.append(row.as_str());
        out.append(ending);
        proof {
            let rest = all.skip(i as int);
            assert(rest.skip(1) =~= all.skip(i + 1));
            assert(rest[0] == row@);
            assert(before + terminated(rest, ending@) =~= out@ + terminated(
                all.skip(i + 1),
                ending@,
            ));
        }
        i = i + 1;
    }
    assert(all.skip(i as int) =~= Seq::<Seq<char>>::empty());
    assert(out@ + Seq::<char>::empty() =~= out@);
}

proof fn terminated_in_parts(a: Seq<Seq<char>>, b: Seq<Seq<char>>, ending: Seq<char>)
    ensures
        terminated(a + b, ending) == terminated(a, ending) + terminated(b, ending),
    decreases a.len(),
{
    if a.len() == 0 {
        assert(a + b =~= b);
        assert(terminated(a, ending) + terminated(b, ending) =~= terminated(b, ending));
    } else {
        assert((a + b).skip(1) =~= a.skip(1) + b);
        terminated_in_parts(a.skip(1), b, ending);
        assert(terminated(a + b, ending) =~= terminated(a, ending) + terminated(b, ending));
    }
}

/// Adds everything that is needed to a configuration.
pub fn with_required_sections(original: &str) -> (r: String)
    ensures
        r@ == enabled_config(original@),
{
    let chars = text::chars_of(original);
    proof {
        reveal_strlit("\r\n");
        reveal_strlit("\n");
        assert("\r\n"@ =~= seq!['\r', '\n']);
        assert("\n"@ =~= seq!['\n']);
    }
    let ending = if text::str_contains(original, "\r\n") {
        "\r\n"
    } else {
        "\n"
    };
    assert(ending@ == line_ending(original@));
    let mut sections = split_sections(chars.as_slice());
    let ghost first = section_models(sections@);
    let mut i: usize = 0;
    while i < 5
        invariant
            i <= 5,
            section_models(sections@) == with_components(first, i as int),
        decreases 5 - i,
    {
        sections = add_component(sections, LOGGING_COMPONENTS[i]);
        i = i + 1;
    }
    let ghost all = section_models(sections@);
    let mut out = String::new();
    let mut k: usize = 0;
    proof {
        assert(all.take(0) =~= Seq::<SectionModel>::empty());
        assert(out@ =~= terminated(flattened(all.take(0)), ending@));
    }
    while k < sections.len()
        invariant
            k <= sections.len(),
            all == section_models(sections@),
            out@ == terminated(flattened(all.take(k as int)), ending@),
        decreases sections.len() - k,
    {
        push_rows(&mut out, &sections[k].lines, ending);
        proof {
            assert(all.take(k + 1).drop_last() =~= all.take(k as int));
            assert(all.take(k + 1).last() == sections@[k as int]@);
            terminated_in_parts(
                flattened(all.take(k as int)),
                rows(sections@[k as int].lines@),
                ending@,
            );
        }
        k = k + 1;
    }
    assert(all.take(k as int) =~= all);
    out
}

/// Settings that stand for themselves, each key once.
spec fn good_settings(settings: Seq<(Seq<char>, Seq<char>)>) -> bool {
    &&& forall|i: int|
        0 <= i < settings.len() ==> plain_key((#[trigger] settings[i]).0) && plain_value(
            settings[i].1,
        )
    &&& forall|i: int, j: int|
        0 <= i < j < settings.len() ==> lower_ascii_text((#[trigger] settings[i]).0)
            != lower_ascii_text((#[trigger] settings[j]).0)
}

spec fn all_settled(lines: Seq<Seq<char>>, settings: Seq<(Seq<char>, Seq<char>)>) -> bool {
    forall|i: int|
        0 <= i < settings.len() ==> settled(lines, (#[trigger] settings[i]).0, settings[i].1)
}

proof fn decimals_are_plain(n: nat)
    ensures
        plain_value(decimal(n)),
    decreases n,
{
    let s = decimal(n);
    if n >= 10 {
        decimals_are_plain(n / 10);
        assert forall|i: int| 0 <= i < s.len() implies !is_space(#[trigger] s[i]) && s[i] != ';'
            && s[i] != '#' by {
            if i < s.len() - 1 {
                assert(s[i] == decimal(n / 10)[i]);
            }
        }
    }
}

proof fn lower_texts_differ(a: Seq<char>, b: Seq<char>, i: int)
    requires
        0 <= i < a.len(),
        i < b.len(),
        lower_ascii(a[i]) != lower_ascii(b[i]),
    ensures
        lower_ascii_text(a) != lower_ascii_text(b),
{
    assert(lower_ascii_text(a)[i] == lower_ascii(a[i]));
    assert(lower_ascii_text(b)[i] == lower_ascii(b[i]));
}

proof fn required_settings_are_good(component: Seq<char>)
    ensures
        good_settings(required_settings(component)),
        required_settings(component).len() >= 3,
        required_settings(component)[0] == ("LogLevel"@, "1"@),
        required_settings(component)[1] == ("FilePrinting"@, "true"@),
        component == "Power"@ ==> required_settings(component).len() == 4
            && required_settings(component)[3] == ("Verbose"@, "1"@),
{
    reveal_strlit("LogLevel");
    reveal_strlit("FilePrinting");
    reveal_strlit("FileSize");
    reveal_strlit("Verbose");
    reveal_strlit("1");
    reveal_strlit("true");
    decimals_are_plain(LOG_FILE_SIZE_KB as nat);
    let r = required_settings(component);
    assert(plain_key("LogLevel"@));
    assert(plain_key("FilePrinting"@));
    assert(plain_key("FileSize"@));
    assert(plain_key("Verbose"@));
    assert(plain_value("1"@));
    assert(plain_value("true"@));
    lower_texts_differ("LogLevel"@, "FilePrinting"@, 0);
    lower_texts_differ("LogLevel"@, "FileSize"@, 0);
    lower_texts_differ("LogLevel"@, "Verbose"@, 0);
    lower_texts_differ("FilePrinting"@, "FileSize"@, 4);
    lower_texts_differ("FilePrinting"@, "Verbose"@, 0);
    lower_texts_differ("FileSize"@, "Verbose"@, 0);
    assert forall|i: int| 0 <= i < r.len() implies plain_key((#[trigger] r[i]).0) && plain_value(
        r[i].1,
    ) by {
        assert(i == 0 || i == 1 || i == 2 || i == 3);
    }
    assert forall|i: int, j: int| 0 <= i < j < r.len() implies lower_ascii_text(
        (#[trigger] r[i]).0,
    ) != lower_ascii_text((#[trigger] r[j]).0) by {
        assert(i == 0 || i == 1 || i == 2);
        assert(j == 1 || j == 2 || j == 3);
    }
}

proof fn settings_settle(lines: Seq<Seq<char>>, settings: Seq<(Seq<char>, Seq<char>)>)
    requires
        lines.len() > 0,
        good_settings(settings),
    ensures
        all_settled(with_settings(lines, settings), settings),
        with_settings(lines, settings).len() > 0,
    decreases settings.len(),
{
    if settings.len() > 0 {
        let before = settings.drop_last();
        let mid = with_settings(lines, before);
        let now = with_settings(lines, settings);
        let last = settings.last();
        assert(good_settings(before)) by {
            assert forall|i: int| 0 <= i < before.len() implies plain_key((#[trigger] before[i]).0)
                && plain_value(before[i].1) by {
                assert(before[i] == settings[i]);
            }
            assert forall|i: int, j: int| 0 <= i < j < before.len() implies lower_ascii_text(
                (#[trigger] before[i]).0,
            ) != lower_ascii_text((#[trigger] before[j]).0) by {
                assert(before[i] == settings[i] && before[j] == settings[j]);
            }
        }
        settings_settle(lines, before);
        assert(settings[settings.len() - 1] == last);
        upserting_settles(mid, last.0, last.1);
        assert forall|i: int| 0 <= i < settings.len() implies settled(
            now,
            (#[trigger] settings[i]).0,
            settings[i].1,
        ) by {
            if i < before.len() {
                assert(before[i] == settings[i]);
                upserting_keeps_others(mid, last.0, last.1, settings[i].0, settings[i].1);
            }
        }
    }
}

proof fn settled_settings_change_nothing(
    lines: Seq<Seq<char>>,
    settings: Seq<(Seq<char>, Seq<char>)>,
)
    requires
        all_settled(lines, settings),
    ensures
        with_settings(lines, settings) == lines,
    decreases settings.len(),
{
    if settings.len() > 0 {
        let before = settings.drop_last();
        assert forall|i: int| 0 <= i < before.len() implies settled(
            lines,
            (#[trigger] before[i]).0,
            before[i].1,
        ) by {
            assert(before[i] == settings[i]);
        }
        settled_settings_change_nothing(lines, before);
        assert(settings[settings.len() - 1] == settings.last());
        upserting_settled_changes_nothing(lines, settings.last().0, settings.last().1);
    }
}

proof fn settings_keep_sections(
    name: Seq<char>,
    lines: Seq<Seq<char>>,
    settings: Seq<(Seq<char>, Seq<char>)>,
)
    requires
        section_lines(name, lines),
        forall|i: int|
            0 <= i < settings.len() ==> plain_key((#[trigger] settings[i]).0) && plain_value(
                settings[i].1,
            ),
    ensures
        section_lines(name, with_settings(lines, settings)),
    decreases settings.len(),
{
    if settings.len() > 0 {
        let before = settings.drop_last();
        assert forall|i: int| 0 <= i < before.len() implies plain_key((#[trigger] before[i]).0)
            && plain_value(before[i].1) by {
            assert(before[i] == settings[i]);
        }
        settings_keep_sections(name, lines, before);
        assert(settings[settings.len() - 1] == settings.last());
        upserting_keeps_sections(
            name,
            with_settings(lines, before),
            settings.last().0,
            settings.last().1,
        );
    }
}

spec fn component_name(c: Seq<char>) -> bool {
    &&& header_name(header_line(c)) == Some(c)
    &&& crate::ini::one_line(header_line(c))
}

proof fn bracketed_names(c: Seq<char>)
    requires
        c.len() > 0,
        forall|i: int| 0 <= i < c.len() ==> !is_space(#[trigger] c[i]),
    ensures
        component_name(c),
{
    reveal_strlit("[");
    reveal_strlit("]");
    let line = header_line(c);
    assert(line =~= seq!['['] + c + seq![']']);
    assert(line[0] == '[' && line.last() == ']');
    assert(trimmed(line) == line);
    assert(line.subrange(1, line.len() - 1) =~= c);
    assert(trimmed(c) == c);
    assert(is_space('\n'));
    assert forall|i: int| 0 <= i < line.len() implies #[trigger] line[i] != '\n' by {
        if 0 < i < line.len() - 1 {
            assert(line[i] == c[i - 1]);
        }
    }
}

proof fn components_have_names(i: int)
    requires
        0 <= i < 5,
    ensures
        component_name(LOGGING_COMPONENTS@[i]@),
{
    reveal_strlit("LoadingScreen");
    reveal_strlit("Power");
    reveal_strlit("Zone");
    reveal_strlit("Arena");
    reveal_strlit("Asset");
    bracketed_names("LoadingScreen"@);
    bracketed_names("Power"@);
    bracketed_names("Zone"@);
    bracketed_names("Arena"@);
    bracketed_names("Asset"@);
    assert(i == 0 || i == 1 || i == 2 || i == 3 || i == 4);
}

proof fn components_differ(i: int, j: int)
    requires
        0 <= i < j < 5,
    ensures
        lower_ascii_text(LOGGING_COMPONENTS@[i]@) != lower_ascii_text(LOGGING_COMPONENTS@[j]@),
{
    reveal_strlit("LoadingScreen");
    reveal_strlit("Power");
    reveal_strlit("Zone");
    reveal_strlit("Arena");
    reveal_strlit("Asset");
    assert(i == 0 || i == 1 || i == 2 || i == 3);
    assert(j == 1 || j == 2 || j == 3 || j == 4);
    if i == 3 {
        lower_texts_differ("Arena"@, "Asset"@, 1);
    } else {
        lower_texts_differ(LOGGING_COMPONENTS@[i]@, LOGGING_COMPONENTS@[j]@, 0);
    }
}

/// Whether a component has a section, and all its sections hold its settings.
spec fn ready(sections: Seq<SectionModel>, component: Seq<char>) -> bool {
    &&& has_section(sections, component)
    &&& forall|i: int|
        0 <= i < sections.len() && is_for(#[trigger] sections[i], component) ==> all_settled(
            sections[i].lines,
            required_settings(component),
        )
}

proof fn adding_a_component(sections: Seq<SectionModel>, component: Seq<char>)
    requires
        sound(sections),
        component_name(component),
    ensures
        sound(with_component(sections, component)),
        ready(with_component(sections, component), component),
{
    let now = with_component(sections, component);
    let settings = required_settings(component);
    required_settings_are_good(component);
    if has_section(sections, component) {
        assert forall|i: int| 0 <= i < now.len() implies #[trigger] now[i] == repaired(
            sections[i],
            component,
        ) by {}
        assert(now[0] == sections[0]);
        assert forall|i: int| 1 <= i < now.len() implies (#[trigger] now[i]).name is Some
            && section_lines(now[i].name->0, now[i].lines) by {
            assert(sections[i].name is Some);
            if is_for(sections[i], component) {
                settings_keep_sections(sections[i].name->0, sections[i].lines, settings);
            }
        }
        let k = choose|k: int|
            0 <= k < sections.len() && is_for(#[trigger] sections[k], component);
        assert(is_for(now[k], component));
        assert forall|i: int|
            0 <= i < now.len() && is_for(#[trigger] now[i], component) implies all_settled(
            now[i].lines,
            settings,
        ) by {
            assert(is_for(sections[i], component));
            assert(i > 0);
            assert(section_lines(sections[i].name->0, sections[i].lines));
            settings_settle(sections[i].lines, settings);
        }
    } else {
        let first = seq![header_line(component)];
        assert(section_lines(component, first));
        settings_keep_sections(component, first, settings);
        settings_settle(first, settings);
        let k = sections.len() as int;
        assert(is_for(now[k], component));
        assert(now[0] == sections[0]);
        assert forall|i: int| 1 <= i < now.len() implies (#[trigger] now[i]).name is Some
            && section_lines(now[i].name->0, now[i].lines) by {
            if i < k {
                assert(now[i] == sections[i]);
            }
        }
        assert forall|i: int|
            0 <= i < now.len() && is_for(#[trigger] now[i], component) implies all_settled(
            now[i].lines,
            settings,
        ) by {
            if i < k {
                assert(is_for(sections[i], component));
            }
        }
    }
}

proof fn adding_keeps_other_components(
    sections: Seq<SectionModel>,
    component: Seq<char>,
    other: Seq<char>,
)
    requires
        lower_ascii_text(component) != lower_ascii_text(other),
        ready(sections, other),
    ensures
        ready(with_component(sections, component), other),
{
    let now = with_component(sections, component);
    let k = choose|k: int| 0 <= k < sections.len() && is_for(#[trigger] sections[k], other);
    assert(now[k] == sections[k]);
    assert(is_for(now[k], other));
    assert forall|i: int|
        0 <= i < now.len() && is_for(#[trigger] now[i], other) implies all_settled(
        now[i].lines,
        required_settings(other),
    ) by {
        if i < sections.len() {
            assert(now[i] == sections[i]);
            assert(is_for(sections[i], other));
        }
    }
}

proof fn ready_components_stay(sections: Seq<SectionModel>, component: Seq<char>)
    requires
        ready(sections, component),
    ensures
        with_component(sections, component) == sections,
{
    let now = with_component(sections, component);
    assert forall|i: int| 0 <= i < sections.len() implies now[i] == sections[i] by {
        if is_for(sections[i], component) {
            settled_settings_change_nothing(sections[i].lines, required_settings(component));
        }
    }
    assert(now =~= sections);
}

proof fn adding_all_components(sections: Seq<SectionModel>, n: int)
    requires
        sound(sections),
        0 <= n <= 5,
    ensures
        sound(with_components(sections, n)),
        forall|i: int|
            0 <= i < n ==> ready(with_components(sections, n), #[trigger] LOGGING_COMPONENTS@[i]@),
    decreases n,
{
    if n > 0 {
        adding_all_components(sections, n - 1);
        let before = with_components(sections, n - 1);
        let c = LOGGING_COMPONENTS@[n - 1]@;
        components_have_names(n - 1);
        adding_a_component(before, c);
        assert forall|i: int| 0 <= i < n implies ready(
            with_components(sections, n),
            #[trigger] LOGGING_COMPONENTS@[i]@,
        ) by {
            if i < n - 1 {
                components_differ(i, n - 1);
                adding_keeps_other_components(before, c, LOGGING_COMPONENTS@[i]@);
            }
        }
    }
}

proof fn ready_sections_stay(sections: Seq<SectionModel>, n: int)
    requires
        0 <= n <= 5,
        forall|i: int| 0 <= i < 5 ==> ready(sections, #[trigger] LOGGING_COMPONENTS@[i]@),
    ensures
        with_components(sections, n) == sections,
    decreases n,
{
    if n > 0 {
        ready_sections_stay(sections, n - 1);
        assert(ready(sections, LOGGING_COMPONENTS@[n - 1]@));
        ready_components_stay(sections, LOGGING_COMPONENTS@[n - 1]@);
    }
}

proof fn required_sections_are_sound(source: Seq<char>)
    ensures
        sound(required_sections(source)),
        forall|i: int|
            0 <= i < 5 ==> ready(required_sections(source), #[trigger] LOGGING_COMPONENTS@[i]@),
{
    crate::ini::lines_are_one_line(source);
    sections_hold_all_lines(lines_of(source));
    adding_all_components(sections_of(lines_of(source)), 5);
}

proof fn carriage_returns_show(lines: Seq<Seq<char>>, i: int)
    requires
        0 <= i < lines.len(),
        lines[i].len() > 0,
        lines[i].last() == '\r',
    ensures
        contains_part(terminated(lines, seq!['\n']), seq!['\r', '\n']),
    decreases i,
{
    let ending = seq!['\n'];
    let pair = seq!['\r', '\n'];
    let rest = terminated(lines.skip(1), ending);
    let all = terminated(lines, ending);
    if i == 0 {
        let at = lines[0].len() - 1;
        assert(all.subrange(at, at + 2) =~= pair);
        assert(text::occurs_at(all, pair, at));
    } else {
        assert(lines.skip(1)[i - 1] == lines[i]);
        carriage_returns_show(lines.skip(1), i - 1);
        let at = choose|at: int| text::occurs_at(rest, pair, at);
        let shift = lines[0].len() + 1;
        assert(all.subrange(at + shift, at + shift + 2) =~= rest.subrange(at, at + 2));
        assert(text::occurs_at(all, pair, at + shift));
    }
}

/// Turning the logs on once more changes nothing: a configuration that was changed is not changed
/// again. A text whose line endings the change itself alters is the exception.
pub proof fn enabling_twice_changes_nothing(source: Seq<char>)
    requires
        line_ending(enabled_config(source)) == line_ending(source),
    ensures
        enabled_config(enabled_config(source)) == enabled_config(source),
{
    let sections = required_sections(source);
    let lines = flattened(sections);
    let ending = line_ending(source);
    required_sections_are_sound(source);
    crate::ini::flattened_lines_are_one_line(sections);
    written_lines_are_read(lines, ending);
    assert(seq!['\n'].len() == 1 && seq!['\r', '\n'].len() == 2);
    if ending == seq!['\n'] {
        assert(lines.map_values(|l: Seq<char>| without_cr(l)) =~= lines) by {
            assert forall|i: int| 0 <= i < lines.len() implies without_cr(lines[i])
                == lines[i] by {
                if lines[i].len() > 0 && lines[i].last() == '\r' {
                    carriage_returns_show(lines, i);
                }
            }
        }
    }
    sections_come_back(sections);
    ready_sections_stay(sections, 5);
}

/// Whether a line does not end with a carriage return.
spec fn ends_well(line: Seq<char>) -> bool {
    line.len() == 0 || line.last() != '\r'
}

spec fn all_end_well(lines: Seq<Seq<char>>) -> bool {
    forall|i: int| 0 <= i < lines.len() ==> ends_well(#[trigger] lines[i])
}

spec fn sections_end_well(sections: Seq<SectionModel>) -> bool {
    forall|i: int| 0 <= i < sections.len() ==> all_end_well((#[trigger] sections[i]).lines)
}

proof fn lines_end_well(s: Seq<char>)
    requires
        !contains_part(s, seq!['\r', '\n']),
        ends_well(s),
    ensures
        all_end_well(lines_of(s)),
    decreases s.len(),
{
    if s.len() > 0 {
        crate::ini::char_place_is_first(s, '\n', 0);
        if let Some(k) = char_place(s, '\n', 0) {
            let head = s.take(k);
            let rest = s.skip(k + 1);
            if head.len() > 0 && head.last() == '\r' {
                assert(s.subrange(k - 1, k + 1) =~= seq!['\r', '\n']);
                assert(occurs_at(s, seq!['\r', '\n'], k - 1));
            }
            if contains_part(rest, seq!['\r', '\n']) {
                assert(s.subrange(k + 1, s.len() as int) =~= rest);
                assert(occurs_at(s, rest, k + 1));
                text::parts_of_parts(s, rest, seq!['\r', '\n']);
            }
            assert(rest.len() > 0 ==> rest.last() == s.last());
            lines_end_well(rest);
            let all = lines_of(s);
            assert forall|i: int| 0 <= i < all.len() implies ends_well(#[trigger] all[i]) by {
                if i > 0 {
                    assert(all[i] == lines_of(rest)[i - 1]);
                }
            }
        }
    }
}

proof fn split_lines_end_well(lines: Seq<Seq<char>>)
    requires
        all_end_well(lines),
    ensures
        sections_end_well(sections_of(lines)),
        sections_of(lines).len() > 0,
    decreases lines.len(),
{
    if lines.len() > 0 {
        let before = lines.drop_last();
        assert forall|i: int| 0 <= i < before.len() implies ends_well(#[trigger] before[i]) by {
            assert(before[i] == lines[i]);
        }
        split_lines_end_well(before);
        assert(ends_well(lines[lines.len() - 1]));
        let old_sections = sections_of(before);
        let now = sections_of(lines);
        assert(all_end_well(old_sections[old_sections.len() - 1].lines));
        assert forall|i: int| 0 <= i < now.len() implies all_end_well(
            (#[trigger] now[i]).lines,
        ) by {
            if i < old_sections.len() - 1 {
                assert(now[i] == old_sections[i]);
            } else if i == old_sections.len() - 1 && header_name(lines.last()) is Some {
                assert(now[i] == old_sections[i]);
            }
        }
    }
}

proof fn comments_lie_inside(s: Seq<char>, i: int)
    requires
        0 <= i,
    ensures
        crate::ini::comment_place(s, i) matches Some(k) ==> i <= k < s.len(),
    decreases s.len() - i,
{
    if i < s.len() && s[i] != ';' && s[i] != '#' {
        comments_lie_inside(s, i + 1);
    }
}

proof fn set_lines_end_well(lines: Seq<Seq<char>>, key: Seq<char>, value: Seq<char>)
    requires
        all_end_well(lines),
        plain_value(value),
    ensures
        all_end_well(upserted(lines, key, value)),
{
    let now = upserted(lines, key, value);
    assert(is_space('\r'));
    assert(!is_space(value[value.len() - 1]));
    assert forall|i: int| 0 <= i < now.len() implies ends_well(#[trigger] now[i]) by {
        if i < lines.len() {
            assert(ends_well(lines[i]));
            let line = lines[i];
            if now[i] != line {
                let rest = crate::ini::assigned(line);
                crate::ini::char_place_is_first(line, '=', 0);
                comments_lie_inside(rest, 0);
                if let Some(k) = crate::ini::comment_place(rest, 0) {
                    assert(rest.skip(k).last() == line.last());
                    assert(now[i].last() == line.last());
                } else {
                    assert(now[i].last() == value.last());
                }
            }
        } else {
            assert(now[i].last() == value.last());
        }
    }
}

proof fn settings_end_well(lines: Seq<Seq<char>>, settings: Seq<(Seq<char>, Seq<char>)>)
    requires
        all_end_well(lines),
        forall|i: int| 0 <= i < settings.len() ==> plain_value((#[trigger] settings[i]).1),
    ensures
        all_end_well(with_settings(lines, settings)),
    decreases settings.len(),
{
    if settings.len() > 0 {
        let before = settings.drop_last();
        assert forall|i: int| 0 <= i < before.len() implies plain_value(
            (#[trigger] before[i]).1,
        ) by {
            assert(before[i] == settings[i]);
        }
        settings_end_well(lines, before);
        assert(plain_value(settings[settings.len() - 1].1));
        set_lines_end_well(with_settings(lines, before), settings.last().0, settings.last().1);
    }
}

proof fn components_end_well(sections: Seq<SectionModel>, n: int)
    requires
        sections_end_well(sections),
        0 <= n <= 5,
    ensures
        sections_end_well(with_components(sections, n)),
    decreases n,
{
    if n > 0 {
        components_end_well(sections, n - 1);
        let before = with_components(sections, n - 1);
        let now = with_components(sections, n);
        let component = LOGGING_COMPONENTS@[n - 1]@;
        let settings = required_settings(component);
        required_settings_are_good(component);
        let header = seq![header_line(component)];
        reveal_strlit("]");
        assert(header_line(component).last() == ']');
        settings_end_well(header, settings);
        assert forall|i: int| 0 <= i < now.len() implies all_end_well(
            (#[trigger] now[i]).lines,
        ) by {
            if i < before.len() {
                assert(all_end_well(before[i].lines));
                settings_end_well(before[i].lines, settings);
            }
        }
    }
}

proof fn flattened_lines_end_well(sections: Seq<SectionModel>)
    requires
        sections_end_well(sections),
    ensures
        all_end_well(flattened(sections)),
    decreases sections.len(),
{
    if sections.len() > 0 {
        let before = sections.drop_last();
        assert forall|i: int| 0 <= i < before.len() implies all_end_well(
            (#[trigger] before[i]).lines,
        ) by {
            assert(before[i] == sections[i]);
        }
        flattened_lines_end_well(before);
        let all = flattened(sections);
        let n = flattened(before).len();
        assert(all_end_well(sections[sections.len() - 1].lines));
        assert forall|i: int| 0 <= i < all.len() implies ends_well(#[trigger] all[i]) by {
            if i < n {
                assert(all[i] == flattened(before)[i]);
            } else {
                assert(all[i] == sections.last().lines[i - n]);
            }
        }
    }
}

proof fn sections_fill_lines(sections: Seq<SectionModel>, i: int)
    requires
        0 <= i < sections.len(),
    ensures
        flattened(sections).len() >= sections[i].lines.len(),
    decreases sections.len(),
{
    if i < sections.len() - 1 {
        sections_fill_lines(sections.drop_last(), i);
    }
}

proof fn written_lines_hold_no_return(lines: Seq<Seq<char>>)
    requires
        all_end_well(lines),
        forall|i: int| 0 <= i < lines.len() ==> crate::ini::one_line(#[trigger] lines[i]),
    ensures
        !contains_part(terminated(lines, seq!['\n']), seq!['\r', '\n']),
    decreases lines.len(),
{
    let pair = seq!['\r', '\n'];
    let all = terminated(lines, seq!['\n']);
    if contains_part(all, pair) {
        let at = choose|at: int| occurs_at(all, pair, at);
        assert(all.subrange(at, at + 2)[0] == '\r');
        assert(all.subrange(at, at + 2)[1] == '\n');
        if lines.len() > 0 {
            let rest = terminated(lines.skip(1), seq!['\n']);
            let n = lines[0].len() as int;
            assert(ends_well(lines[0]));
            assert(crate::ini::one_line(lines[0]));
            if at + 1 < n {
                assert(lines[0][at + 1] == '\n');
            } else if at + 1 == n {
                assert(lines[0].last() == '\r');
            } else if at == n {
            } else {
                assert(rest.subrange(at - n - 1, at - n + 1) =~= pair);
                assert(occurs_at(rest, pair, at - n - 1));
            }
            assert forall|i: int| 0 <= i < lines.skip(1).len() implies ends_well(
                #[trigger] lines.skip(1)[i],
            ) && crate::ini::one_line(lines.skip(1)[i]) by {
                assert(lines.skip(1)[i] == lines[i + 1]);
            }
            written_lines_hold_no_return(lines.skip(1));
        }
    }
}

/// Whether every carriage return of a text stands directly before a line feed.
pub open spec fn returns_end_lines(s: Seq<char>) -> bool {
    forall|i: int|
        0 <= i < s.len() && #[trigger] s[i] == '\r' ==> i + 1 < s.len() && s[i + 1] == '\n'
}

/// A text whose carriage returns all end lines keeps its line endings, and turning the logs on
/// once more changes nothing.
pub proof fn proper_lines_are_changed_once(source: Seq<char>)
    requires
        returns_end_lines(source),
    ensures
        line_ending(enabled_config(source)) == line_ending(source),
        enabled_config(enabled_config(source)) == enabled_config(source),
{
    let sections = required_sections(source);
    let lines = flattened(sections);
    let pair = seq!['\r', '\n'];
    required_sections_are_sound(source);
    crate::ini::flattened_lines_are_one_line(sections);
    if contains_part(source, pair) {
        assert(ready(sections, LOGGING_COMPONENTS@[0]@));
        let k = choose|k: int|
            0 <= k < sections.len() && is_for(#[trigger] sections[k], LOGGING_COMPONENTS@[0]@);
        assert(k > 0);
        assert(section_lines(sections[k].name->0, sections[k].lines));
        sections_fill_lines(sections, k);
        let all = terminated(lines, pair);
        let n = lines[0].len() as int;
        assert(all.subrange(n, n + 2) =~= pair);
        assert(occurs_at(all, pair, n));
    } else {
        if !ends_well(source) {
            assert(source[source.len() - 1] == '\r');
        }
        lines_end_well(source);
        split_lines_end_well(lines_of(source));
        components_end_well(sections_of(lines_of(source)), 5);
        flattened_lines_end_well(sections);
        written_lines_hold_no_return(lines);
    }
    enabling_twice_changes_nothing(source);
}

/// Whether the sections with a name set a key to a value, in any letter case.
pub open spec fn setting_is(
    sections: Seq<SectionModel>,
    name: Seq<char>,
    key: Seq<char>,
    expected: Seq<char>,
) -> bool {
    lookup(sections, name, key, sections.len() as int) matches Some(v) && lower_ascii_text(v)
        == lower_ascii_text(expected)
}

/// Whether the log of a component is turned on. The name counts in any letter case.
pub open spec fn component_enabled(sections: Seq<SectionModel>, name: Seq<char>) -> bool {
    &&& has_section(sections, name)
    &&& setting_is(sections, name, "LogLevel"@, "1"@)
    &&& setting_is(sections, name, "FilePrinting"@, "true"@)
    &&& name == "Power"@ ==> setting_is(sections, name, "Verbose"@, "1"@)
}

/// What a configuration says of one component.
#[derive(Clone, Debug, PartialEq, Eq)]
pub struct ComponentLoggingStatus {
    pub component: String,
    pub section_present: bool,
    pub log_level_one: bool,
    pub file_printing: bool,
    pub verbose: Option<bool>,
    pub file_size_kb: Option<u32>,
    pub enabled: bool,
}

/// The size limit that the sections with a name set.
pub open spec fn size_limit(sections: Seq<SectionModel>, name: Seq<char>) -> Option<u32> {
    match lookup(sections, name, "FileSize"@, sections.len() as int) {
        Some(v) => match parsed_number(v, u32::MAX as nat) {
            Some(n) => Some(n as u32),
            None => None,
        },
        None => None,
    }
}

/// Whether a status is what the sections say of a component.
pub open spec fn says_component(
    r: ComponentLoggingStatus,
    sections: Seq<SectionModel>,
    name: Seq<char>,
) -> bool {
    &&& r.component@ == name
    &&& r.section_present == has_section(sections, name)
    &&& r.log_level_one == setting_is(sections, name, "LogLevel"@, "1"@)
    &&& r.file_printing == setting_is(sections, name, "FilePrinting"@, "true"@)
    &&& r.verbose == if name == "Power"@ {
        Some(setting_is(sections, name, "Verbose"@, "1"@))
    } else {
        None
    }
    &&& r.file_size_kb == size_limit(sections, name)
    &&& r.enabled == component_enabled(sections, name)
}

fn check_setting(sections: &Vec<IniSection>, name: &[char], key: &str, expected: &str) -> (r: bool)
    ensures
        r == setting_is(section_models(sections@), name@, key@, expected@),
{
    let key = text::chars_of(key);
    match find_value(sections, name, key.as_slice()) {
        Some(v) => {
            let expected = text::chars_of(expected);
            text::eq_ignore_ascii_case(v.as_slice(), expected.as_slice())
        },
        None => false,
    }
}

fn component_status(sections: &Vec<IniSection>, component: &str) -> (r: ComponentLoggingStatus)
    ensures
        says_component(r, section_models(sections@), component@),
{
    let name = text::chars_of(component);
    let section_present = names_section(sections, name.as_slice());
    let log_level_one = check_setting(sections, name.as_slice(), "LogLevel", "1");
    let file_printing = check_setting(sections, name.as_slice(), "FilePrinting", "true");
    let verbose = if text::str_eq(component, "Power") {
        Some(check_setting(sections, name.as_slice(), "Verbose", "1"))
    } else {
        None
    };
    let key = text::chars_of("FileSize");
    let file_size_kb = match find_value(sections, name.as_slice(), key.as_slice()) {
        Some(v) => match text::parse_number(v.as_slice(), u32::MAX as u64) {
            Some(n) => Some(n as u32),
            None => None,
        },
        None => None,
    };
    let loud = match verbose {
        Some(v) => v,
        None => true,
    };
    ComponentLoggingStatus {
        component: text::copy(component),
        section_present,
        log_level_one,
        file_printing,
        verbose,
        file_size_kb,
        enabled: section_present && log_level_one && file_printing && loud,
    }
}

/// What a configuration turns on.
#[derive(Clone, Debug, PartialEq, Eq)]
pub struct LoggingStatus {
    pub path: String,
    pub exists: bool,
    pub components: Vec<ComponentLoggingStatus>,
    /// Whether the operation changed the configuration. Looking at it never does.
    pub configuration_changed: bool,
    pub change_required: bool,
    /// Whether the game has to be restarted to read the change.
    pub hearthstone_restart_required: bool,
}

/// Whether a status is that of a configuration, for an operation that changed it or did not.
pub open spec fn is_status(
    r: LoggingStatus,
    path: Seq<char>,
    exists_now: bool,
    source: Seq<char>,
    changed: bool,
) -> bool {
    let sections = sections_of(lines_of(source));
    &&& r.path@ == path
    &&& r.exists == exists_now
    &&& r.components@.len() == 5
    &&& forall|i: int|
        0 <= i < 5 ==> says_component(
            #[trigger] r.components@[i],
            sections,
            LOGGING_COMPONENTS@[i]@,
        )
    &&& r.configuration_changed == changed
    &&& r.hearthstone_restart_required == changed
    &&& r.change_required == exists|i: int|
        0 <= i < 5 && !component_enabled(sections, #[trigger] LOGGING_COMPONENTS@[i]@)
}

/// Looks at a configuration.
pub fn status_from_source(path: &str, exists_now: bool, source: &str) -> (r: LoggingStatus)
    ensures
        is_status(r, path@, exists_now, source@, false),
{
    let chars = text::chars_of(source);
    let sections = split_sections(chars.as_slice());
    let ghost all = section_models(sections@);
    let mut components: Vec<ComponentLoggingStatus> = Vec::new();
    let mut change_required = false;
    let mut i: usize = 0;
    while i < 5
        invariant
            i <= 5,
            all == section_models(sections@),
            components@.len() == i,
            forall|k: int|
                0 <= k < i ==> says_component(
                    #[trigger] components@[k],
                    all,
                    LOGGING_COMPONENTS@[k]@,
                ),
            change_required == exists|k: int|
                0 <= k < i && !component_enabled(all, #[trigger] LOGGING_COMPONENTS@[k]@),
        decreases 5 - i,
    {
        let status = component_status(&sections, LOGGING_COMPONENTS[i]);
        if !status.enabled {
            change_required = true;
            assert(!component_enabled(all, LOGGING_COMPONENTS@[i as int]@));
        }
        components.push(status);
        i = i + 1;
    }
    LoggingStatus {
        path: text::copy(path),
        exists: exists_now,
        components,
        configuration_changed: false,
        change_required,
        hearthstone_restart_required: false,
    }
}

/// What turning the logs on comes to: the new configuration, and its status.
pub struct EnableOutcome {
    /// The text to write, where it differs from what is there.
    pub updated: Option<String>,
    pub status: LoggingStatus,
}

/// Turns the logs on. The text is to be written in one step, and a copy of the old one kept.
pub fn enable_file_logging(path: &str, exists_now: bool, original: &str) -> (r: EnableOutcome)
    ensures
        match r.updated {
            Some(u) => u@ == enabled_config(original@) && u@ != original@,
            None => enabled_config(original@) == original@,
        },
        is_status(
            r.status,
            path@,
            exists_now || r.updated is Some,
            enabled_config(original@),
            r.updated is Some,
        ),
        !r.status.change_required,
{
    let updated = with_required_sections(original);
    let changed = !text::str_eq(updated.as_str(), original);
    let mut status = status_from_source(path, exists_now || changed, updated.as_str());
    status.configuration_changed = changed;
    status.hearthstone_restart_required = changed;
    proof {
        enabling_turns_all_logs_on(original@);
    }
    if changed {
        EnableOutcome { updated: Some(updated), status }
    } else {
        EnableOutcome { updated: None, status }
    }
}

/// Sections that are not those of a component stay as they are, at their place.
pub proof fn other_sections_stay(source: Seq<char>, i: int)
    requires
        0 <= i < sections_of(lines_of(source)).len(),
        forall|k: int|
            0 <= k < 5 ==> !is_for(
                sections_of(lines_of(source))[i],
                #[trigger] LOGGING_COMPONENTS@[k]@,
            ),
    ensures
        i < required_sections(source).len(),
        required_sections(source)[i] == sections_of(lines_of(source))[i],
{
    others_stay(sections_of(lines_of(source)), i, 5);
}

proof fn others_stay(sections: Seq<SectionModel>, i: int, n: int)
    requires
        0 <= i < sections.len(),
        0 <= n <= 5,
        forall|k: int| 0 <= k < 5 ==> !is_for(sections[i], #[trigger] LOGGING_COMPONENTS@[k]@),
    ensures
        i < with_components(sections, n).len(),
        with_components(sections, n)[i] == sections[i],
    decreases n,
{
    if n > 0 {
        others_stay(sections, i, n - 1);
        assert(!is_for(sections[i], LOGGING_COMPONENTS@[n - 1]@));
    }
}

proof fn settled_keys_have_their_value(
    lines: Seq<Seq<char>>,
    key: Seq<char>,
    value: Seq<char>,
    n: int,
    at: int,
)
    requires
        settled(lines, key, value),
        1 <= at < n <= lines.len(),
        crate::ini::assigns(lines[at], key),
    ensures
        crate::ini::last_value(lines, key, n) == Some(value),
    decreases n,
{
    if !crate::ini::assigns(lines[n - 1], key) {
        settled_keys_have_their_value(lines, key, value, n - 1, at);
    }
}

proof fn settled_sections_have_the_value(
    sections: Seq<SectionModel>,
    name: Seq<char>,
    key: Seq<char>,
    value: Seq<char>,
    n: int,
    at: int,
)
    requires
        0 <= at < n <= sections.len(),
        is_for(sections[at], name),
        forall|i: int|
            0 <= i < sections.len() && is_for(#[trigger] sections[i], name) ==> settled(
                sections[i].lines,
                key,
                value,
            ),
    ensures
        lookup(sections, name, key, n) == Some(value),
    decreases n,
{
    let s = sections[n - 1];
    if is_for(s, name) {
        let k = choose|k: int|
            1 <= k < s.lines.len() && crate::ini::assigns(#[trigger] s.lines[k], key);
        settled_keys_have_their_value(s.lines, key, value, s.lines.len() as int, k);
    } else {
        settled_sections_have_the_value(sections, name, key, value, n - 1, at);
    }
}

proof fn enabling_turns_a_log_on(source: Seq<char>, k: int)
    requires
        0 <= k < 5,
    ensures
        component_enabled(
            sections_of(lines_of(enabled_config(source))),
            LOGGING_COMPONENTS@[k]@,
        ),
        size_limit(sections_of(lines_of(enabled_config(source))), LOGGING_COMPONENTS@[k]@) == Some(
            LOG_FILE_SIZE_KB,
        ),
{
    let sections = required_sections(source);
    let name = LOGGING_COMPONENTS@[k]@;
    let ending = line_ending(source);
    required_sections_are_sound(source);
    required_settings_are_good(name);
    assert(ready(sections, name));
    let at = choose|i: int| 0 <= i < sections.len() && is_for(#[trigger] sections[i], name);
    let settings = required_settings(name);
    assert forall|i: int, j: int|
        0 <= i < sections.len() && is_for(#[trigger] sections[i], name) && 0 <= j
            < settings.len() implies settled(
        sections[i].lines,
        (#[trigger] settings[j]).0,
        settings[j].1,
    ) by {}
    let n = sections.len() as int;
    let size = decimal(LOG_FILE_SIZE_KB as nat);
    assert(settings[0] == ("LogLevel"@, "1"@));
    settled_sections_have_the_value(sections, name, "LogLevel"@, "1"@, n, at);
    assert(settings[1] == ("FilePrinting"@, "true"@));
    settled_sections_have_the_value(sections, name, "FilePrinting"@, "true"@, n, at);
    assert(settings[2] == ("FileSize"@, size));
    settled_sections_have_the_value(sections, name, "FileSize"@, size, n, at);
    written_sections_say_the_same(sections, ending, name, "LogLevel"@);
    written_sections_say_the_same(sections, ending, name, "FilePrinting"@);
    written_sections_say_the_same(sections, ending, name, "FileSize"@);
    text::decimals_are_read(LOG_FILE_SIZE_KB as nat);
    assert(size[0] != '+');
    if name == "Power"@ {
        assert(settings[3] == ("Verbose"@, "1"@));
        settled_sections_have_the_value(sections, name, "Verbose"@, "1"@, n, at);
        written_sections_say_the_same(sections, ending, name, "Verbose"@);
    }
}

/// After the change every log that is needed is turned on, with its size limit, whatever the
/// configuration was: no further change is required.
pub proof fn enabling_turns_all_logs_on(source: Seq<char>)
    ensures
        forall|k: int|
            0 <= k < 5 ==> component_enabled(
                sections_of(lines_of(enabled_config(source))),
                #[trigger] LOGGING_COMPONENTS@[k]@,
            ),
        forall|k: int|
            0 <= k < 5 ==> size_limit(
                sections_of(lines_of(enabled_config(source))),
                #[trigger] LOGGING_COMPONENTS@[k]@,
            ) == Some(LOG_FILE_SIZE_KB),
        forall|status: LoggingStatus, path: Seq<char>, exists_now: bool, changed: bool| #[trigger]
            is_status(status, path, exists_now, enabled_config(source), changed)
                ==> !status.change_required,
{
    assert forall|k: int| 0 <= k < 5 implies component_enabled(
        sections_of(lines_of(enabled_config(source))),
        #[trigger] LOGGING_COMPONENTS@[k]@,
    ) && size_limit(sections_of(lines_of(enabled_config(source))), LOGGING_COMPONENTS@[k]@) == Some(
        LOG_FILE_SIZE_KB,
    ) by {
        enabling_turns_a_log_on(source, k);
    }
}

/// The lines of a text, without any carriage return at their ends.
pub open spec fn logical_lines(s: Seq<char>) -> Seq<Seq<char>>
    decreases s.len(),
{
    if s.len() == 0 {
        Seq::empty()
    } else {
        match char_place(s, '\n', 0) {
            None => seq![without_cr(s)],
            Some(k) => if 0 <= k < s.len() {
                seq![without_cr(s.take(k))] + logical_lines(s.skip(k + 1))
            } else {
                Seq::empty()
            },
        }
    }
}

fn split_logical_lines(s: &[char]) -> (r: Vec<Vec<char>>)
    ensures
        rows(r@) == logical_lines(s@),
{
    let mut out: Vec<Vec<char>> = Vec::new();
    let mut at: usize = 0;
    assert(s@.skip(0) =~= s@);
    assert(rows(out@) + logical_lines(s@) =~= logical_lines(s@));
    while at < s.len()
        invariant
            at <= s.len(),
            logical_lines(s@) == rows(out@) + logical_lines(s@.skip(at as int)),
        decreases s.len() - at,
    {
        let ghost rest = s@.skip(at as int);
        let ghost before = out@;
        let tail = vstd::slice::slice_subrange(s, at, s.len());
        assert(tail@ =~= rest);
        let (end, next): (usize, usize) = match find_char(tail, '\n', 0) {
            None => (s.len(), s.len()),
            Some(k) => (at + k, at + k + 1),
        };
        let last: usize = if end > at && s[end - 1] == '\r' {
            end - 1
        } else {
            end
        };
        let part = vstd::slice::slice_subrange(s, at, last);
        assert(part@ =~= without_cr(rest.take(end - at)));
        let row = vstd::slice::slice_to_vec(part);
        out.push(row);
        proof {
            assert(rows(out@) =~= rows(before).push(part@));
            if end < next {
                assert(rest.skip(end - at + 1) =~= s@.skip(next as int));
            } else {
                assert(rest.take(end - at) =~= rest);
                assert(s@.skip(next as int) =~= Seq::<char>::empty());
                assert(logical_lines(s@.skip(next as int)) =~= Seq::<Seq<char>>::empty());
                assert(seq![part@] + logical_lines(s@.skip(next as int)) =~= seq![part@]);
            }
            assert(rows(before) + (seq![part@] + logical_lines(s@.skip(next as int))) =~= rows(out@)
                + logical_lines(s@.skip(next as int)));
        }
        at = next;
    }
    assert(s@.skip(at as int) =~= Seq::<char>::empty());
    assert(rows(out@) + Seq::<Seq<char>>::empty() =~= rows(out@));
    out
}

/// The length of the longest common subsequence of what follows two places.
pub open spec fn common_length(a: Seq<Seq<char>>, b: Seq<Seq<char>>, i: int, j: int) -> nat
    decreases (a.len() - i) + (b.len() - j),
{
    if i < 0 || j < 0 || i >= a.len() || j >= b.len() {
        0
    } else if a[i] == b[j] {
        common_length(a, b, i + 1, j + 1) + 1
    } else {
        let x = common_length(a, b, i + 1, j);
        let y = common_length(a, b, i, j + 1);
        if x >= y {
            x
        } else {
            y
        }
    }
}

proof fn common_length_is_short(a: Seq<Seq<char>>, b: Seq<Seq<char>>, i: int, j: int)
    requires
        0 <= i <= a.len(),
        0 <= j,
    ensures
        common_length(a, b, i, j) <= a.len() - i,
    decreases (a.len() - i) + (b.len() - j),
{
    if i < a.len() && j < b.len() {
        if a[i] == b[j] {
            common_length_is_short(a, b, i + 1, j + 1);
        } else {
            common_length_is_short(a, b, i + 1, j);
            common_length_is_short(a, b, i, j + 1);
        }
    }
}

/// One row of a difference.
pub enum DiffRow {
    Same(Seq<char>),
    Removed(Seq<char>),
    Added(Seq<char>),
}

/// The rows of the difference of what follows two places. A line is removed before another is
/// added where both keep as much in common.
pub open spec fn diff_rows(a: Seq<Seq<char>>, b: Seq<Seq<char>>, i: int, j: int) -> Seq<DiffRow>
    decreases (a.len() - i) + (b.len() - j),
{
    if i < 0 || j < 0 || i > a.len() || j > b.len() || (i == a.len() && j == b.len()) {
        Seq::empty()
    } else if i < a.len() && j < b.len() && a[i] == b[j] {
        seq![DiffRow::Same(a[i])] + diff_rows(a, b, i + 1, j + 1)
    } else if i < a.len() && (j == b.len() || common_length(a, b, i + 1, j) >= common_length(
        a,
        b,
        i,
        j + 1,
    )) {
        seq![DiffRow::Removed(a[i])] + diff_rows(a, b, i + 1, j)
    } else {
        seq![DiffRow::Added(b[j])] + diff_rows(a, b, i, j + 1)
    }
}

/// The text of a row.
pub open spec fn row_text(row: DiffRow) -> Seq<char> {
    match row {
        DiffRow::Same(l) => seq![' '] + l + seq!['\n'],
        DiffRow::Removed(l) => seq!['-'] + l + seq!['\n'],
        DiffRow::Added(l) => seq!['+'] + l + seq!['\n'],
    }
}

/// The text of rows.
pub open spec fn rows_text(rows: Seq<DiffRow>) -> Seq<char>
    decreases rows.len(),
{
    if rows.len() == 0 {
        Seq::empty()
    } else {
        row_text(rows[0]) + rows_text(rows.skip(1))
    }
}

/// The lines before the change.
pub open spec fn old_side(rows: Seq<DiffRow>) -> Seq<Seq<char>>
    decreases rows.len(),
{
    if rows.len() == 0 {
        Seq::empty()
    } else {
        match rows[0] {
            DiffRow::Same(l) => seq![l] + old_side(rows.skip(1)),
            DiffRow::Removed(l) => seq![l] + old_side(rows.skip(1)),
            DiffRow::Added(_) => old_side(rows.skip(1)),
        }
    }
}

/// The lines after the change.
pub open spec fn new_side(rows: Seq<DiffRow>) -> Seq<Seq<char>>
    decreases rows.len(),
{
    if rows.len() == 0 {
        Seq::empty()
    } else {
        match rows[0] {
            DiffRow::Same(l) => seq![l] + new_side(rows.skip(1)),
            DiffRow::Added(l) => seq![l] + new_side(rows.skip(1)),
            DiffRow::Removed(_) => new_side(rows.skip(1)),
        }
    }
}

/// A difference tells both texts: without the added rows it is the old one, without the removed
/// rows the new one.
pub proof fn differences_tell_both_texts(
    a: Seq<Seq<char>>,
    b: Seq<Seq<char>>,
    i: int,
    j: int,
)
    requires
        0 <= i <= a.len(),
        0 <= j <= b.len(),
    ensures
        old_side(diff_rows(a, b, i, j)) == a.skip(i),
        new_side(diff_rows(a, b, i, j)) == b.skip(j),
    decreases (a.len() - i) + (b.len() - j),
{
    let rows = diff_rows(a, b, i, j);
    if i == a.len() && j == b.len() {
        assert(a.skip(i) =~= Seq::<Seq<char>>::empty());
        assert(b.skip(j) =~= Seq::<Seq<char>>::empty());
    } else if i < a.len() && j < b.len() && a[i] == b[j] {
        differences_tell_both_texts(a, b, i + 1, j + 1);
        assert(rows.skip(1) =~= diff_rows(a, b, i + 1, j + 1));
        assert(seq![a[i]] + a.skip(i + 1) =~= a.skip(i));
        assert(seq![b[j]] + b.skip(j + 1) =~= b.skip(j));
    } else if i < a.len() && (j == b.len() || common_length(a, b, i + 1, j) >= common_length(
        a,
        b,
        i,
        j + 1,
    )) {
        differences_tell_both_texts(a, b, i + 1, j);
        assert(rows.skip(1) =~= diff_rows(a, b, i + 1, j));
        assert(seq![a[i]] + a.skip(i + 1) =~= a.skip(i));
    } else {
        differences_tell_both_texts(a, b, i, j + 1);
        assert(rows.skip(1) =~= diff_rows(a, b, i, j + 1));
        assert(seq![b[j]] + b.skip(j + 1) =~= b.skip(j));
    }
}

/// The most cells that a table of common lengths may have.
pub const MAX_LCS_CELLS: usize = 1_000_000;

/// The difference of two texts of a file.
pub open spec fn diff_text(path: Seq<char>, original: Seq<char>, updated: Seq<char>) -> Seq<char> {
    let a = logical_lines(original);
    let b = logical_lines(updated);
    let head = "--- "@ + path + "\n+++ "@ + path + " (proposed)\n"@;
    if original == updated {
        Seq::empty()
    } else if (a.len() + 1) * (b.len() + 1) > MAX_LCS_CELLS {
        head
            + "@@ full line diff omitted: configuration is too large for an in-memory LCS preview @@\n-"@
            + decimal(byte_length(original)) + " bytes in current configuration\n+"@ + decimal(
            byte_length(updated),
        ) + " bytes in proposed configuration\n"@
    } else {
        head + rows_text(diff_rows(a, b, 0, 0)) + if a == b {
            "\\ No newline at end of current configuration\n"@
        } else {
            Seq::empty()
        }
    }
}

/// The length of a text in bytes.
pub open spec fn byte_length(s: Seq<char>) -> nat {
    (vstd::utf8::encode_utf8(s).len() as usize) as nat
}

fn rows_eq(a: &Vec<char>, b: &Vec<char>) -> (r: bool)
    ensures
        r == (a@ == b@),
{
    text::chars_eq(a.as_slice(), b.as_slice())
}

/// Whether a row of the table holds the common lengths of a line.
spec fn holds_row(row: Seq<u32>, a: Seq<Seq<char>>, b: Seq<Seq<char>>, i: int) -> bool {
    &&& row.len() == b.len() + 1
    &&& forall|j: int| 0 <= j <= b.len() ==> #[trigger] row[j] == common_length(a, b, i, j)
}

/// The row of common lengths for one line, from the row for the next line.
fn common_row(a: &Vec<Vec<char>>, b: &Vec<Vec<char>>, i: usize, below: &Vec<u32>) -> (r: Vec<u32>)
    requires
        i < a.len(),
        a.len() <= MAX_LCS_CELLS,
        b@.len() < usize::MAX,
        holds_row(below@, rows(a@), rows(b@), i + 1),
    ensures
        holds_row(r@, rows(a@), rows(b@), i as int),
{
    let m: usize = b.len();
    let mut row: Vec<u32> = Vec::new();
    let mut k: usize = 0;
    while k <= m
        invariant
            k <= m + 1,
            m == b.len(),
            m < usize::MAX,
            row@.len() == k,
            forall|j: int| 0 <= j < k ==> #[trigger] row@[j] == 0,
        decreases m + 1 - k,
    {
        row.push(0);
        k = k + 1;
    }
    let mut j: usize = m;
    while j > 0
        invariant
            j <= m,
            m == b.len(),
            i < a.len(),
            a.len() <= MAX_LCS_CELLS,
            row@.len() == m + 1,
            below@.len() == m + 1,
            forall|q: int|
                0 <= q <= m ==> #[trigger] below@[q] == common_length(
                    rows(a@),
                    rows(b@),
                    i + 1,
                    q,
                ),
            forall|q: int|
                j <= q <= m ==> #[trigger] row@[q] == common_length(
                    rows(a@),
                    rows(b@),
                    i as int,
                    q,
                ),
        decreases j,
    {
        let q: usize = j - 1;
        proof {
            common_length_is_short(rows(a@), rows(b@), i + 1, j as int);
            assert(rows(a@)[i as int] == a@[i as int]@);
            assert(rows(b@)[q as int] == b@[q as int]@);
            assert(below@[j as int] == common_length(rows(a@), rows(b@), i + 1, j as int));
            assert(below@[q as int] == common_length(rows(a@), rows(b@), i + 1, q as int));
            assert(row@[j as int] == common_length(rows(a@), rows(b@), i as int, j as int));
        }
        let value: u32 = if rows_eq(&a[i], &b[q]) {
            below[j] + 1
        } else if below[q] >= row[j] {
            below[q]
        } else {
            row[j]
        };
        row.set(q, value);
        j = q;
    }
    row
}

/// The table of common lengths. Its last row is that of the first line.
fn common_table(a: &Vec<Vec<char>>, b: &Vec<Vec<char>>) -> (r: Vec<Vec<u32>>)
    requires
        a.len() <= MAX_LCS_CELLS,
        b@.len() < usize::MAX,
    ensures
        r@.len() == a@.len() + 1,
        forall|u: int|
            0 <= u <= a@.len() ==> holds_row(
                (#[trigger] r@[u])@,
                rows(a@),
                rows(b@),
                a@.len() - u,
            ),
{
    let n: usize = a.len();
    let m: usize = b.len();
    let mut table: Vec<Vec<u32>> = Vec::new();
    let mut zeros: Vec<u32> = Vec::new();
    let mut k: usize = 0;
    while k <= m
        invariant
            k <= m + 1,
            m == b.len(),
            m < usize::MAX,
            zeros@.len() == k,
            forall|j: int| 0 <= j < k ==> #[trigger] zeros@[j] == 0,
        decreases m + 1 - k,
    {
        zeros.push(0);
        k = k + 1;
    }
    table.push(zeros);
    let mut t: usize = 0;
    while t < n
        invariant
            t <= n,
            n == a.len(),
            m == b.len(),
            n <= MAX_LCS_CELLS,
            m < usize::MAX,
            table@.len() == t + 1,
            forall|u: int|
                0 <= u <= t ==> holds_row((#[trigger] table@[u])@, rows(a@), rows(b@), n - u),
        decreases n - t,
    {
        let i: usize = n - 1 - t;
        assert(holds_row(table@[t as int]@, rows(a@), rows(b@), n - t));
        let row = common_row(a, b, i, &table[t]);
        table.push(row);
        t = t + 1;
    }
    table
}

fn push_row(out: &mut String, sign: char, line: &Vec<char>)
    ensures
        final(out)@ == old(out)@ + (seq![sign] + line@ + seq!['\n']),
{
    out.push(sign);
    out.append(text::string_of(line.as_slice()).as_str());
    out.push('\n');
    assert(out@ =~= old(out)@ + (seq![sign] + line@ + seq!['\n']));
}

fn push_diff(out: &mut String, a: &Vec<Vec<char>>, b: &Vec<Vec<char>>)
    requires
        a.len() <= MAX_LCS_CELLS,
        b@.len() < usize::MAX,
    ensures
        final(out)@ == old(out)@ + rows_text(diff_rows(rows(a@), rows(b@), 0, 0)),
{
    let table = common_table(a, b);
    let n: usize = a.len();
    let m: usize = b.len();
    let ghost x = rows(a@);
    let ghost y = rows(b@);
    let ghost wanted = out@ + rows_text(diff_rows(x, y, 0, 0));
    let mut i: usize = 0;
    let mut j: usize = 0;
    while i < n || j < m
        invariant
            i <= n,
            j <= m,
            n == a.len(),
            m == b.len(),
            m < usize::MAX,
            n <= MAX_LCS_CELLS,
            x == rows(a@),
            y == rows(b@),
            table@.len() == n + 1,
            forall|u: int| 0 <= u <= n ==> holds_row((#[trigger] table@[u])@, x, y, n - u),
            out@ + rows_text(diff_rows(x, y, i as int, j as int)) == wanted,
        decreases (n - i) + (m - j),
    {
        let ghost here = diff_rows(x, y, i as int, j as int);
        let ghost before = out@;
        if i < n && j < m && rows_eq(&a[i], &b[j]) {
            push_row(out, ' ', &a[i]);
            proof {
                assert(x[i as int] == a@[i as int]@ && y[j as int] == b@[j as int]@);
                assert(here.skip(1) =~= diff_rows(x, y, i + 1, j + 1));
                assert(before + rows_text(here) =~= out@ + rows_text(here.skip(1)));
            }
            i = i + 1;
            j = j + 1;
        } else {
            let removes = if i < n {
                if j == m {
                    true
                } else {
                    proof {
                        assert(holds_row(table@[n - (i + 1)]@, x, y, i + 1));
                        assert(holds_row(table@[n - i]@, x, y, i as int));
                    }
                    table[n - (i + 1)][j] >= table[n - i][j + 1]
                }
            } else {
                false
            };
            if removes {
                push_row(out, '-', &a[i]);
                proof {
                    assert(x[i as int] == a@[i as int]@);
                    if j < m {
                        assert(y[j as int] == b@[j as int]@);
                    }
                    assert(here.skip(1) =~= diff_rows(x, y, i + 1, j as int));
                    assert(before + rows_text(here) =~= out@ + rows_text(here.skip(1)));
                }
                i = i + 1;
            } else {
                push_row(out, '+', &b[j]);
                proof {
                    assert(y[j as int] == b@[j as int]@);
                    if i < n {
                        assert(x[i as int] == a@[i as int]@);
                    }
                    assert(here.skip(1) =~= diff_rows(x, y, i as int, j + 1));
                    assert(before + rows_text(here) =~= out@ + rows_text(here.skip(1)));
                }
                j = j + 1;
            }
        }
    }
    assert(out@ + Seq::<char>::empty() =~= out@);
}

fn too_large(n: usize, m: usize) -> (r: bool)
    ensures
        r == ((n + 1) * (m + 1) > MAX_LCS_CELLS),
{
    if n >= MAX_LCS_CELLS || m >= MAX_LCS_CELLS {
        assert((n + 1) * (m + 1) > MAX_LCS_CELLS) by (nonlinear_arith)
            requires
                n >= MAX_LCS_CELLS || m >= MAX_LCS_CELLS,
                MAX_LCS_CELLS == 1_000_000,
                n >= 0,
                m >= 0,
        ;
        return true;
    }
    let cells: u64 = {
        assert((n + 1) * (m + 1) <= 1_000_000 * 1_000_000) by (nonlinear_arith)
            requires
                0 <= n < 1_000_000,
                0 <= m < 1_000_000,
        ;
        (n as u64 + 1) * (m as u64 + 1)
    };
    cells > MAX_LCS_CELLS as u64
}

fn all_rows_eq(a: &Vec<Vec<char>>, b: &Vec<Vec<char>>) -> (r: bool)
    ensures
        r == (rows(a@) == rows(b@)),
{
    if a.len() != b.len() {
        assert(rows(a@).len() != rows(b@).len());
        return false;
    }
    let mut i: usize = 0;
    while i < a.len()
        invariant
            i <= a.len(),
            a.len() == b.len(),
            forall|k: int| 0 <= k < i ==> rows(a@)[k] == rows(b@)[k],
        decreases a.len() - i,
    {
        if !rows_eq(&a[i], &b[i]) {
            assert(rows(a@)[i as int] != rows(b@)[i as int]);
            return false;
        }
        assert(rows(a@)[i as int] == rows(b@)[i as int]);
        i = i + 1;
    }
    assert(rows(a@) =~= rows(b@));
    true
}

/// Shows the difference of two texts of a file.
pub fn unified_diff(path: &str, original: &str, updated: &str) -> (r: String)
    ensures
        r@ == diff_text(path@, original@, updated@),
{
    let mut out = String::new();
    assert(out@ =~= Seq::<char>::empty());
    if text::str_eq(original, updated) {
        return out;
    }
    out.append("--- ");
    out.append(path);
    out.append("\n+++ ");
    out.append(path);
    out.append(" (proposed)\n");
    let ghost head = out@;
    assert(head =~= "--- "@ + path@ + "\n+++ "@ + path@ + " (proposed)\n"@);
    let old_chars = text::chars_of(original);
    let new_chars = text::chars_of(updated);
    let a = split_logical_lines(old_chars.as_slice());
    let b = split_logical_lines(new_chars.as_slice());
    if too_large(a.len(), b.len()) {
        out.append(
            "@@ full line diff omitted: configuration is too large for an in-memory LCS preview @@\n-",
        );
        text::push_decimal(&mut out, original.len() as u64);
        out.append(" bytes in current configuration\n+");
        text::push_decimal(&mut out, updated.len() as u64);
        out.append(" bytes in proposed configuration\n");
        return out;
    }
    proof {
        assert(a@.len() <= MAX_LCS_CELLS && b@.len() < usize::MAX) by (nonlinear_arith)
            requires
                (a@.len() + 1) * (b@.len() + 1) <= MAX_LCS_CELLS,
                MAX_LCS_CELLS == 1_000_000,
                usize::MAX > 1_000_000,
        ;
    }
    push_diff(&mut out, &a, &b);
    if all_rows_eq(&a, &b) {
        out.append("\\ No newline at end of current configuration\n");
    } else {
        assert(out@ + Seq::<char>::empty() =~= out@);
    }
    out
}

/// What a change would do, before it is made.
pub struct LoggingDiff {
    pub path: String,
    pub exists: bool,
    pub would_change: bool,
    pub current: LoggingStatus,
    pub proposed: LoggingStatus,
    pub unified_diff: String,
}

/// Shows what turning the logs on would change. Nothing is written.
pub fn preview_file_logging(path: &str, exists_now: bool, original: &str) -> (r: LoggingDiff)
    ensures
        r.path@ == path@,
        r.exists == exists_now,
        r.would_change == (enabled_config(original@) != original@),
        is_status(r.current, path@, exists_now, original@, false),
        is_status(r.proposed, path@, true, enabled_config(original@), false),
        !r.proposed.change_required,
        r.unified_diff@ == diff_text(path@, original@, enabled_config(original@)),
{
    let updated = with_required_sections(original);
    proof {
        enabling_turns_all_logs_on(original@);
    }
    LoggingDiff {
        path: text::copy(path),
        exists: exists_now,
        would_change: !text::str_eq(updated.as_str(), original),
        current: status_from_source(path, exists_now, original),
        proposed: status_from_source(path, true, updated.as_str()),
        unified_diff: unified_diff(path, original, updated.as_str()),
    }
}

/// What stands between the name of a configuration and the numbers in the name of its backup.
pub const BACKUP_MARK: &'static str = ".arena-next-backup-";

/// When a backup was made, where a file's name is that of a backup of the configuration.
pub open spec fn backup_time(config: Seq<char>, candidate: Seq<char>) -> Option<nat> {
    let prefix = config + BACKUP_MARK@;
    let suffix = candidate.skip(prefix.len() as int);
    if !occurs_at(candidate, prefix, 0) {
        None
    } else {
        match char_place(suffix, '-', 0) {
            None => None,
            Some(k) => {
                let process = suffix.take(k);
                let time = suffix.skip(k + 1);
                if process.len() > 0 && all_digits(process) && time.len() > 0 && all_digits(time)
                    && digits_value(process) <= u32::MAX && digits_value(time) <= u128::MAX {
                    Some(digits_value(time))
                } else {
                    None
                }
            },
        }
    }
}

/// Reads digits as a number, where the number is not too large.
fn read_digits(s: &[char]) -> (r: Option<u128>)
    ensures
        match r {
            Some(n) => s@.len() > 0 && all_digits(s@) && n == digits_value(s@),
            None => !(s@.len() > 0 && all_digits(s@) && digits_value(s@) <= u128::MAX),
        },
{
    if s.len() == 0 {
        return None;
    }
    let mut value: u128 = 0;
    let mut i: usize = 0;
    while i < s.len()
        invariant
            i <= s.len(),
            value == digits_value(s@.take(i as int)),
            all_digits(s@.take(i as int)),
        decreases s.len() - i,
    {
        let c = s[i];
        if !('0' <= c && c <= '9') {
            assert(!all_digits(s@));
            return None;
        }
        let v: u128 = (c as u32 - 48) as u128;
        proof {
            text::digits_value_grows(s@, i + 1);
            assert(s@.take(i + 1).drop_last() =~= s@.take(i as int));
            assert(s@.take(i + 1).last() == c);
        }
        if value > (u128::MAX - v) / 10 {
            return None;
        }
        value = value * 10 + v;
        assert forall|j: int| 0 <= j < s@.take(i + 1).len() implies '0' <= #[trigger] s@.take(
            i + 1,
        )[j] <= '9' by {
            if j < i {
                assert(s@.take(i as int)[j] == s@[j]);
            }
        }
        i = i + 1;
    }
    assert(s@.take(i as int) =~= s@);
    Some(value)
}

/// When a backup was made, where a file's name is that of a backup of the configuration.
pub fn arena_next_backup_timestamp(config: &str, candidate: &str) -> (r: Option<u128>)
    ensures
        match r {
            Some(t) => backup_time(config@, candidate@) == Some(t as nat),
            None => backup_time(config@, candidate@) is None,
        },
{
    let mut prefix = text::copy(config);
    prefix.append(BACKUP_MARK);
    let suffix = match text::strip_prefix(candidate, prefix.as_str()) {
        None => return None,
        Some(suffix) => text::chars_of(suffix.as_str()),
    };
    match find_char(suffix.as_slice(), '-', 0) {
        None => None,
        Some(k) => {
            let process = vstd::slice::slice_subrange(suffix.as_slice(), 0, k);
            let time = vstd::slice::slice_subrange(suffix.as_slice(), k + 1, suffix.len());
            assert(process@ =~= suffix@.take(k as int));
            assert(time@ =~= suffix@.skip(k + 1));
            match read_digits(process) {
                None => None,
                Some(id) => if id <= u32::MAX as u128 {
                    read_digits(time)
                } else {
                    None
                },
            }
        },
    }
}

/// The name of a backup of a configuration.
pub open spec fn backup_name(config: Seq<char>, process: nat, time: nat) -> Seq<char> {
    config + BACKUP_MARK@ + decimal(process) + "-"@ + decimal(time)
}

fn push_long_decimal(out: &mut String, n: u128)
    ensures
        final(out)@ == old(out)@ + decimal(n as nat),
    decreases n,
{
    if n < 10 {
        let d: u8 = n as u8;
        out.push((48 + d) as char);
    } else {
        push_long_decimal(out, n / 10);
        let d: u8 = (n % 10) as u8;
        out.push((48 + d) as char);
    }
    assert(out@ =~= old(out)@ + decimal(n as nat));
}

/// The name for a new backup of a configuration.
pub fn new_backup_name(config: &str, process: u32, time: u128) -> (r: String)
    ensures
        r@ == backup_name(config@, process as nat, time as nat),
{
    let mut out = text::copy(config);
    out.append(BACKUP_MARK);
    text::push_decimal(&mut out, process as u64);
    out.append("-");
    push_long_decimal(&mut out, time);
    out
}

/// The name of the file into which a new configuration is written before it takes its place.
pub fn temporary_name(config: &str, process: u32, time: u128) -> (r: String)
    ensures
        r@ == "."@ + config@ + ".arena-next-"@ + decimal(process as nat) + "-"@ + decimal(
            time as nat,
        ) + ".tmp"@,
{
    let mut out = text::copy(".");
    out.append(config);
    out.append(".arena-next-");
    text::push_decimal(&mut out, process as u64);
    out.append("-");
    push_long_decimal(&mut out, time);
    out.append(".tmp");
    out
}

proof fn no_dash_among_digits(digits: Seq<char>, rest: Seq<char>, i: int)
    requires
        all_digits(digits),
        0 <= i <= digits.len(),
    ensures
        char_place(digits + seq!['-'] + rest, '-', i) == Some(digits.len() as int),
    decreases digits.len() - i,
{
    let s = digits + seq!['-'] + rest;
    if i < digits.len() {
        assert(s[i] == digits[i]);
        no_dash_among_digits(digits, rest, i + 1);
    } else {
        assert(s[i] == '-');
    }
}

/// Every backup is found again: its name tells when it was made.
pub proof fn backups_tell_their_time(config: Seq<char>, process: u32, time: u128)
    ensures
        backup_time(config, backup_name(config, process as nat, time as nat)) == Some(time as nat),
{
    let prefix = config + BACKUP_MARK@;
    let name = backup_name(config, process as nat, time as nat);
    let a = decimal(process as nat);
    let b = decimal(time as nat);
    text::decimals_are_read(process as nat);
    text::decimals_are_read(time as nat);
    reveal_strlit("-");
    assert("-"@ =~= seq!['-']);
    assert(name =~= prefix + (a + seq!['-'] + b));
    assert(name.subrange(0, prefix.len() as int) =~= prefix);
    assert(name.skip(prefix.len() as int) =~= a + seq!['-'] + b);
    no_dash_among_digits(a, b, 0);
    assert((a + seq!['-'] + b).take(a.len() as int) =~= a);
    assert((a + seq!['-'] + b).skip(a.len() as int + 1) =~= b);
}

/// A file beside a configuration.
pub struct DirectoryEntry {
    pub name: String,
    /// Whether it is a regular file, not a link or a directory.
    pub regular: bool,
}

/// When the backup that an entry holds was made.
pub open spec fn entry_time(config: Seq<char>, entry: DirectoryEntry) -> Option<nat> {
    if entry.regular {
        backup_time(config, entry.name@)
    } else {
        None
    }
}

/// Whether an entry is the newest backup, and the first of them.
pub open spec fn is_latest(config: Seq<char>, entries: Seq<DirectoryEntry>, at: int) -> bool {
    &&& 0 <= at < entries.len()
    &&& entry_time(config, entries[at]) is Some
    &&& forall|j: int|
        0 <= j < entries.len() ==> (entry_time(config, #[trigger] entries[j]) matches Some(t) ==> {
            &&& t <= entry_time(config, entries[at])->0
            &&& j < at ==> t < entry_time(config, entries[at])->0
        })
}

/// The newest backup of a configuration among the files beside it.
pub fn latest_arena_next_backup(config: &str, entries: &Vec<DirectoryEntry>) -> (r: Option<usize>)
    ensures
        match r {
            Some(at) => is_latest(config@, entries@, at as int),
            None => forall|j: int|
                0 <= j < entries@.len() ==> entry_time(config@, #[trigger] entries@[j]) is None,
        },
{
    let mut latest: Option<(u128, usize)> = None;
    let mut i: usize = 0;
    while i < entries.len()
        invariant
            i <= entries.len(),
            match latest {
                Some((time, at)) => at < i && entry_time(config@, entries@[at as int]) == Some(
                    time as nat,
                ) && forall|j: int|
                    0 <= j < i ==> (entry_time(config@, #[trigger] entries@[j]) matches Some(t) ==> {
                        &&& t <= time
                        &&& j < at ==> t < time
                    }),
                None => forall|j: int|
                    0 <= j < i ==> entry_time(config@, #[trigger] entries@[j]) is None,
            },
        decreases entries.len() - i,
    {
        if entries[i].regular {
            match arena_next_backup_timestamp(config, entries[i].name.as_str()) {
                None => {},
                Some(time) => {
                    let newer = match latest {
                        None => true,
                        Some((current, _)) => time > current,
                    };
                    if newer {
                        latest = Some((time, i));
                    }
                },
            }
        }
        i = i + 1;
    }
    match latest {
        None => None,
        Some((_, at)) => Some(at),
    }
}

/// What is known of the two files of a restore.
pub struct RestoreFiles {
    /// The file name of the configuration, where it has one.
    pub config_name: Option<String>,
    /// The file name of the backup, where it has one.
    pub backup_name: Option<String>,
    pub config_is_regular: bool,
    pub backup_is_regular: bool,
    /// Whether both stand in the same directory.
    pub same_directory: bool,
}

/// Why a restore is refused.
#[derive(Clone, Copy, PartialEq, Eq, Debug, Structural)]
pub enum RestoreError {
    ConfigIsNotAFile,
    BackupIsNotAFile,
    BackupIsElsewhere,
    NotABackup,
}

/// Whether the backup's name is that of a backup of the configuration.
pub open spec fn names_match(files: RestoreFiles) -> bool {
    match (files.config_name, files.backup_name) {
        (Some(config), Some(backup)) => backup_time(config@, backup@) is Some,
        _ => false,
    }
}

/// Why a restore is refused, if it is.
pub open spec fn restore_fault(files: RestoreFiles) -> Option<RestoreError> {
    if !files.config_is_regular {
        Some(RestoreError::ConfigIsNotAFile)
    } else if !files.backup_is_regular {
        Some(RestoreError::BackupIsNotAFile)
    } else if !files.same_directory {
        Some(RestoreError::BackupIsElsewhere)
    } else if !names_match(files) {
        Some(RestoreError::NotABackup)
    } else {
        None
    }
}

/// Whether a configuration may be restored from a backup.
pub fn validate_backup(files: &RestoreFiles) -> (r: Result<(), RestoreError>)
    ensures
        match r {
            Ok(()) => restore_fault(*files) is None,
            Err(e) => restore_fault(*files) == Some(e),
        },
{
    if !files.config_is_regular {
        return Err(RestoreError::ConfigIsNotAFile);
    }
    if !files.backup_is_regular {
        return Err(RestoreError::BackupIsNotAFile);
    }
    if !files.same_directory {
        return Err(RestoreError::BackupIsElsewhere);
    }
    let matching = match (&files.config_name, &files.backup_name) {
        (Some(config), Some(backup)) => arena_next_backup_timestamp(
            config.as_str(),
            backup.as_str(),
        ).is_some(),
        _ => false,
    };
    if matching {
        Ok(())
    } else {
        Err(RestoreError::NotABackup)
    }
}

impl RestoreError {
    /// The words for a refusal.
    pub open spec fn says(self, path: Seq<char>, backup: Seq<char>) -> Seq<char> {
        match self {
            RestoreError::ConfigIsNotAFile => "refusing to use "@ + path
                + ": it must be an existing regular file"@,
            RestoreError::BackupIsNotAFile => "refusing to use "@ + backup
                + ": it must be an existing regular file"@,
            RestoreError::BackupIsElsewhere => "refusing backup "@ + backup
                + ": ArenaNext backups must live beside this log.config"@,
            RestoreError::NotABackup => "refusing backup "@ + backup
                + ": it is not an ArenaNext timestamped backup for "@ + path,
        }
    }

    /// The words for a refusal.
    pub fn message(self, path: &str, backup: &str) -> (r: String)
        ensures
            r@ == self.says(path@, backup@),
    {
        let mut out = String::new();
        match self {
            RestoreError::ConfigIsNotAFile => {
                out.append("refusing to use ");
                out.append(path);
                out.append(": it must be an existing regular file");
            },
            RestoreError::BackupIsNotAFile => {
                out.append("refusing to use ");
                out.append(backup);
                out.append(": it must be an existing regular file");
            },
            RestoreError::BackupIsElsewhere => {
                out.append("refusing backup ");
                out.append(backup);
                out.append(": ArenaNext backups must live beside this log.config");
            },
            RestoreError::NotABackup => {
                out.append("refusing backup ");
                out.append(backup);
                out.append(": it is not an ArenaNext timestamped backup for ");
                out.append(path);
            },
        }
        assert(out@ =~= self.says(path@, backup@));
        out
    }
}

/// The result of a restore.
pub struct LoggingRestore {
    pub path: String,
    pub restored_from: String,
    /// Where the configuration that was replaced has been kept.
    pub preserved_current_backup: Option<String>,
    pub configuration_changed: bool,
    pub hearthstone_restart_required: bool,
}

/// Restores a configuration from one of its backups. Where the texts differ the current one is
/// kept as a backup of its own, under the path that `preserved` gives, before it is replaced.
pub fn restore_from_backup(
    path: &str,
    backup: &str,
    files: &RestoreFiles,
    current: &str,
    restored: &str,
    preserved: String,
) -> (r: Result<LoggingRestore, RestoreError>)
    ensures
        match r {
            Err(e) => restore_fault(*files) == Some(e),
            Ok(done) => {
                &&& restore_fault(*files) is None
                &&& done.path@ == path@
                &&& done.restored_from@ == backup@
                &&& done.configuration_changed == (current@ != restored@)
                &&& done.hearthstone_restart_required == (current@ != restored@)
                &&& match done.preserved_current_backup {
                    Some(kept) => current@ != restored@ && kept@ == preserved@,
                    None => current@ == restored@,
                }
            },
        },
{
    match validate_backup(files) {
        Err(e) => return Err(e),
        Ok(()) => {},
    }
    let changed = !text::str_eq(current, restored);
    Ok(
        LoggingRestore {
            path: text::copy(path),
            restored_from: text::copy(backup),
            preserved_current_backup: if changed {
                Some(preserved)
            } else {
                None
            },
            configuration_changed: changed,
            hearthstone_restart_required: changed,
        },
    )
}

} // verus!
