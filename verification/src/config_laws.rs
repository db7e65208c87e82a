//! What the settings of the log configuration say, and what a change of it leaves alone.
use crate::card_laws::{blank, trimming_takes_white_space_only};
use crate::ini::{
    assigned, assigns, char_place, char_place_is_first, comment_place, has_section, header_name,
    is_for, last_value, lines_of, lookup, replaced_line, sections_of, upserted, value_of,
    SectionModel,
};
use crate::log_component::{stem, LogComponent};
use crate::log_config::{
    backup_time, component_enabled, enable_file_logging, enabled_config, enabling_turns_all_logs_on,
    entry_time, is_latest, is_status, names_match, required_settings, restore_fault,
    restore_from_backup, row_text, says_component, size_limit, with_component, with_settings,
    ComponentLoggingStatus, DiffRow, DirectoryEntry, EnableOutcome, LoggingRestore, LoggingStatus,
    RestoreError, RestoreFiles, LOGGING_COMPONENTS,
};
use crate::setup_laws::same_letter;
use crate::stream_laws::place_of_log;
use crate::text::{decimal, is_space, lower_ascii_text, occurs_at, trimmed};
use vstd::prelude::*;

verus! {

/// Whether two texts are the same up to letter case.
pub open spec fn same_word(a: Seq<char>, b: Seq<char>) -> bool {
    a.len() == b.len() && forall|i: int| 0 <= i < a.len() ==> same_letter(#[trigger] a[i], b[i])
}

/// Section names, keys and values are compared without regard to letter case.
pub proof fn words_are_compared_without_case(a: Seq<char>, b: Seq<char>)
    ensures
        lower_ascii_text(a) == lower_ascii_text(b) <==> same_word(a, b),
{
    let x = lower_ascii_text(a);
    let y = lower_ascii_text(b);
    if x == y {
        assert(x.len() == a.len() && y.len() == b.len());
        assert forall|i: int| 0 <= i < a.len() implies same_letter(#[trigger] a[i], b[i]) by {
            assert(x[i] == y[i]);
        }
    }
    if same_word(a, b) {
        assert forall|i: int| 0 <= i < a.len() implies x[i] == y[i] by {
            assert(same_letter(a[i], b[i]));
        }
        assert(x =~= y);
    }
}

/// Whether a line gives a key a value: the key stands before the first equals sign.
pub open spec fn gives(line: Seq<char>, key: Seq<char>, at: int) -> bool {
    &&& 0 <= at < line.len()
    &&& line[at] == '='
    &&& forall|i: int| 0 <= i < at ==> #[trigger] line[i] != '='
    &&& same_word(trimmed(line.take(at)), key)
}

/// A line is a setting of a key exactly where the key stands before its first equals sign. The
/// value is what stands behind that sign, up to a comment, without the white space around it.
pub proof fn settings_are_read_from_their_line(line: Seq<char>, key: Seq<char>)
    ensures
        assigns(line, key) <==> exists|at: int| #[trigger] gives(line, key, at),
        forall|at: int, end: int|
            #![trigger gives(line, key, at), line.subrange(at + 1, end)]
            gives(line, key, at) && at < end <= line.len() && (forall|i: int|
                at < i < end ==> line[i] != ';' && line[i] != '#') && (end == line.len()
                || line[end] == ';' || line[end] == '#') ==> value_of(line) == trimmed(
                line.subrange(at + 1, end),
            ),
{
    char_place_is_first(line, '=', 0);
    if assigns(line, key) {
        let k = char_place(line, '=', 0)->0;
        words_are_compared_without_case(trimmed(line.take(k)), key);
        assert(gives(line, key, k));
    }
    assert forall|at: int| #[trigger] gives(line, key, at) implies char_place(line, '=', 0) == Some(
        at,
    ) && assigns(line, key) by {
        words_are_compared_without_case(trimmed(line.take(at)), key);
    }
    assert forall|at: int, end: int|
        #![trigger gives(line, key, at), line.subrange(at + 1, end)]
        gives(line, key, at) && at < end <= line.len() && (forall|i: int|
            at < i < end ==> line[i] != ';' && line[i] != '#') && (end == line.len() || line[end]
            == ';' || line[end] == '#') implies value_of(line) == trimmed(
        line.subrange(at + 1, end),
    ) by {
        let rest = assigned(line);
        comment_place_is_first(rest, 0);
        match comment_place(rest, 0) {
            Some(k) => {
                assert(rest[k] == line[at + 1 + k]);
                if end < line.len() {
                    assert(rest[end - at - 1] == line[end]);
                }
                assert(k == end - at - 1);
                assert(rest.take(k) =~= line.subrange(at + 1, end));
            },
            None => {
                if end < line.len() {
                    assert(rest[end - at - 1] == line[end]);
                }
                assert(rest =~= line.subrange(at + 1, end));
            },
        }
    }
}

proof fn comment_place_is_first(s: Seq<char>, i: int)
    requires
        0 <= i,
    ensures
        match comment_place(s, i) {
            Some(k) => i <= k < s.len() && (s[k] == ';' || s[k] == '#') && forall|j: int|
                i <= j < k ==> s[j] != ';' && s[j] != '#',
            None => forall|j: int| i <= j < s.len() ==> s[j] != ';' && s[j] != '#',
        },
    decreases s.len() - i,
{
    if i < s.len() {
        comment_place_is_first(s, i + 1);
    }
}

/// Whether a section is named by a name.
pub open spec fn named(section: SectionModel, name: Seq<char>) -> bool {
    section.name matches Some(own) && same_word(own, name)
}

/// Of several settings of a key in a section the last counts, and of several sections with a name
/// the last one that has the key. The heading of a section is no setting.
pub proof fn the_last_setting_counts(
    sections: Seq<SectionModel>,
    name: Seq<char>,
    key: Seq<char>,
    s: int,
    i: int,
)
    requires
        0 <= s < sections.len(),
        1 <= i < sections[s].lines.len(),
        named(sections[s], name),
        assigns(sections[s].lines[i], key),
        forall|j: int| i < j < sections[s].lines.len() ==> !assigns(#[trigger] sections[s].lines[j], key),
        forall|t: int, j: int|
            s < t < sections.len() && named(sections[t], name) && 1 <= j < sections[t].lines.len()
                ==> !assigns(#[trigger] sections[t].lines[j], key),
    ensures
        lookup(sections, name, key, sections.len() as int) == Some(value_of(sections[s].lines[i])),
{
    last_value_is_last(sections[s].lines, key, sections[s].lines.len() as int, i);
    words_are_compared_without_case(sections[s].name->0, name);
    lookup_stops(sections, name, key, sections.len() as int, s);
}

proof fn lookup_stops(
    sections: Seq<SectionModel>,
    name: Seq<char>,
    key: Seq<char>,
    n: int,
    s: int,
)
    requires
        0 <= s < n <= sections.len(),
        is_for(sections[s], name),
        last_value(sections[s].lines, key, sections[s].lines.len() as int) is Some,
        forall|t: int, j: int|
            s < t < sections.len() && named(sections[t], name) && 1 <= j < sections[t].lines.len()
                ==> !assigns(#[trigger] sections[t].lines[j], key),
    ensures
        lookup(sections, name, key, n) == last_value(
            sections[s].lines,
            key,
            sections[s].lines.len() as int,
        ),
    decreases n,
{
    if n - 1 > s {
        let t = sections[n - 1];
        if is_for(t, name) {
            words_are_compared_without_case(t.name->0, name);
            no_last_value(t.lines, key, t.lines.len() as int);
        }
        lookup_stops(sections, name, key, n - 1, s);
    }
}

proof fn no_last_value(lines: Seq<Seq<char>>, key: Seq<char>, n: int)
    requires
        n <= lines.len(),
        forall|j: int| 1 <= j < lines.len() ==> !assigns(#[trigger] lines[j], key),
    ensures
        last_value(lines, key, n) is None,
    decreases n,
{
    if n > 1 {
        no_last_value(lines, key, n - 1);
    }
}

proof fn last_value_is_last(lines: Seq<Seq<char>>, key: Seq<char>, n: int, i: int)
    requires
        1 <= i < n <= lines.len(),
        assigns(lines[i], key),
        forall|j: int| i < j < lines.len() ==> !assigns(#[trigger] lines[j], key),
    ensures
        last_value(lines, key, n) == Some(value_of(lines[i])),
    decreases n,
{
    if n - 1 > i {
        last_value_is_last(lines, key, n - 1, i);
    }
}

/// Whether a section has a setting with a value, in whatever letter case.
pub open spec fn set_to(
    sections: Seq<SectionModel>,
    name: Seq<char>,
    key: Seq<char>,
    value: Seq<char>,
) -> bool {
    lookup(sections, name, key, sections.len() as int) matches Some(v) && same_word(v, value)
}

/// A log is on exactly where its section is there, its level is one and it is printed to a file;
/// the power log has to be verbose besides. The status says the same, and each of it alone.
pub proof fn logs_are_on_where_their_settings_say_so(
    r: ComponentLoggingStatus,
    sections: Seq<SectionModel>,
    name: Seq<char>,
)
    ensures
        component_enabled(sections, name) <==> {
            &&& has_section(sections, name)
            &&& set_to(sections, name, "LogLevel"@, "1"@)
            &&& set_to(sections, name, "FilePrinting"@, "true"@)
            &&& name == "Power"@ ==> set_to(sections, name, "Verbose"@, "1"@)
        },
        says_component(r, sections, name) ==> {
            &&& r.component@ == name
            &&& r.section_present == has_section(sections, name)
            &&& r.log_level_one == set_to(sections, name, "LogLevel"@, "1"@)
            &&& r.file_printing == set_to(sections, name, "FilePrinting"@, "true"@)
            &&& name == "Power"@ ==> r.verbose == Some(
                set_to(sections, name, "Verbose"@, "1"@),
            )
            &&& name != "Power"@ ==> r.verbose is None
            &&& r.enabled == (r.section_present && r.log_level_one && r.file_printing && r.verbose
                != Some(false))
        },
{
    let n = sections.len() as int;
    match lookup(sections, name, "LogLevel"@, n) {
        Some(v) => words_are_compared_without_case(v, "1"@),
        None => {},
    }
    match lookup(sections, name, "FilePrinting"@, n) {
        Some(v) => words_are_compared_without_case(v, "true"@),
        None => {},
    }
    match lookup(sections, name, "Verbose"@, n) {
        Some(v) => words_are_compared_without_case(v, "1"@),
        None => {},
    }
}

/// The logs whose settings matter are the ones that are read, each by its own name.
pub proof fn the_logs_that_are_read_are_turned_on(c: LogComponent)
    ensures
        LOGGING_COMPONENTS@[place_of_log(c) - 1]@ == stem(c),
        LOGGING_COMPONENTS@.len() == 5,
{
}

/// After the change every log is on, by the settings themselves, and may grow to two hundred
/// thousand kilobytes; a status of it asks for no change. A status asks for a change exactly where
/// one of the five logs is off.
pub proof fn changed_configurations_turn_every_log_on(source: Seq<char>, c: LogComponent)
    ensures
        ({
            let sections = sections_of(lines_of(enabled_config(source)));
            &&& has_section(sections, stem(c))
            &&& set_to(sections, stem(c), "LogLevel"@, "1"@)
            &&& set_to(sections, stem(c), "FilePrinting"@, "true"@)
            &&& c is Power ==> set_to(sections, stem(c), "Verbose"@, "1"@)
            &&& size_limit(sections, stem(c)) == Some(200_000u32)
        }),
{
    enabling_turns_all_logs_on(source);
    the_logs_that_are_read_are_turned_on(c);
    let k = place_of_log(c) - 1;
    let sections = sections_of(lines_of(enabled_config(source)));
    assert(component_enabled(sections, LOGGING_COMPONENTS@[k]@));
    assert(size_limit(sections, LOGGING_COMPONENTS@[k]@) == Some(200_000u32));
    settings_hold(sections, stem(c));
}

proof fn settings_hold(sections: Seq<SectionModel>, name: Seq<char>)
    requires
        component_enabled(sections, name),
    ensures
        has_section(sections, name),
        set_to(sections, name, "LogLevel"@, "1"@),
        set_to(sections, name, "FilePrinting"@, "true"@),
        name == "Power"@ ==> set_to(sections, name, "Verbose"@, "1"@),
{
    let n = sections.len() as int;
    words_are_compared_without_case(lookup(sections, name, "LogLevel"@, n)->0, "1"@);
    words_are_compared_without_case(lookup(sections, name, "FilePrinting"@, n)->0, "true"@);
    if name == "Power"@ {
        words_are_compared_without_case(lookup(sections, name, "Verbose"@, n)->0, "1"@);
    }
}

/// A status asks for a change exactly where a log is off, and says that the game has to be
/// restarted exactly where the configuration was changed.
pub proof fn statuses_ask_for_what_is_missing(
    r: LoggingStatus,
    path: Seq<char>,
    exists_now: bool,
    source: Seq<char>,
    changed: bool,
)
    requires
        is_status(r, path, exists_now, source, changed),
    ensures
        r.path@ == path,
        r.exists == exists_now,
        r.configuration_changed == changed,
        r.hearthstone_restart_required == r.configuration_changed,
        !r.change_required <==> forall|c: LogComponent|
            component_enabled(sections_of(lines_of(source)), #[trigger] stem(c)),
{
    let sections = sections_of(lines_of(source));
    if r.change_required {
        let i = choose|i: int|
            0 <= i < 5 && !component_enabled(sections, #[trigger] LOGGING_COMPONENTS@[i]@);
        let c = crate::log_component::REQUIRED_COMPONENTS@[i];
        the_logs_that_are_read_are_turned_on(c);
        assert(!component_enabled(sections, stem(c)));
    } else {
        assert forall|c: LogComponent| component_enabled(sections, #[trigger] stem(c)) by {
            the_logs_that_are_read_are_turned_on(c);
            assert(component_enabled(sections, LOGGING_COMPONENTS@[place_of_log(c) - 1]@));
        }
    }
}

/// Setting a key leaves every line alone that does not set it, the heading too. A line that sets it
/// keeps its indentation and its comment. Where no line sets it, one more line does.
pub proof fn setting_a_key_leaves_other_lines_alone(
    lines: Seq<Seq<char>>,
    key: Seq<char>,
    value: Seq<char>,
)
    ensures
        lines.len() <= upserted(lines, key, value).len() <= lines.len() + 1,
        forall|i: int|
            0 <= i < lines.len() && (i == 0 || !assigns(#[trigger] lines[i], key)) ==> upserted(
                lines,
                key,
                value,
            )[i] == lines[i],
        forall|i: int|
            1 <= i < lines.len() && assigns(#[trigger] lines[i], key) ==> {
                let rest = assigned(lines[i]);
                let new = upserted(lines, key, value)[i];
                &&& upserted(lines, key, value).len() == lines.len()
                &&& comment_place(rest, 0) matches Some(k) ==> occurs_at(
                    new,
                    rest.skip(k),
                    new.len() - rest.skip(k).len(),
                )
            },
        (forall|i: int| 1 <= i < lines.len() ==> !assigns(#[trigger] lines[i], key)) ==> upserted(
            lines,
            key,
            value,
        ) == lines.push(key + seq!['='] + value),
{
    reveal_strlit("=");
    assert("="@ =~= seq!['=']);
    let all = upserted(lines, key, value);
    assert forall|i: int| 1 <= i < lines.len() && assigns(#[trigger] lines[i], key) implies {
        let rest = assigned(lines[i]);
        let new = all[i];
        &&& all.len() == lines.len()
        &&& comment_place(rest, 0) matches Some(k) ==> occurs_at(
            new,
            rest.skip(k),
            new.len() - rest.skip(k).len(),
        )
    } by {
        let rest = assigned(lines[i]);
        let new = all[i];
        assert(new == replaced_line(lines[i], key, value));
        match comment_place(rest, 0) {
            Some(k) => {
                let c = rest.skip(k);
                assert(new.subrange(new.len() - c.len(), new.len() as int) =~= c);
            },
            None => {},
        }
    }
}

/// The settings that a log needs: level one, printed to a file, room for two hundred thousand
/// kilobytes, and verbose for the power log.
pub proof fn logs_need_three_settings(component: Seq<char>)
    ensures
        required_settings(component).contains(("LogLevel"@, "1"@)),
        required_settings(component).contains(("FilePrinting"@, "true"@)),
        required_settings(component).contains(("FileSize"@, decimal(200_000))),
        required_settings(component).contains(("Verbose"@, "1"@)) <==> component == "Power"@,
        required_settings(component).len() == if component == "Power"@ {
            4int
        } else {
            3
        },
{
    let all = required_settings(component);
    reveal_strlit("Verbose");
    reveal_strlit("LogLevel");
    reveal_strlit("FilePrinting");
    reveal_strlit("FileSize");
    assert("Verbose"@.len() == 7 && "LogLevel"@.len() == 8 && "FilePrinting"@.len() == 12
        && "FileSize"@.len() == 8);
    assert(all[0] == ("LogLevel"@, "1"@));
    assert(all[1] == ("FilePrinting"@, "true"@));
    assert(all[2] == ("FileSize"@, decimal(200_000)));
    if component == "Power"@ {
        assert(all[3] == ("Verbose"@, "1"@));
    }
}

/// Rows of a difference are marked: a blank for a line that stays, a minus for one that goes, a
/// plus for one that comes.
pub proof fn differences_are_marked(line: Seq<char>)
    ensures
        row_text(DiffRow::Same(line))[0] == ' ',
        row_text(DiffRow::Removed(line))[0] == '-',
        row_text(DiffRow::Added(line))[0] == '+',
        forall|row: DiffRow|
            (row == DiffRow::Same(line) || row == DiffRow::Removed(line) || row == DiffRow::Added(
                line,
            )) ==> (#[trigger] row_text(row)).len() == line.len() + 2 && row_text(row).subrange(
                1,
                line.len() as int + 1,
            ) == line && row_text(row).last() == '\n',
{
    assert forall|row: DiffRow|
        (row == DiffRow::Same(line) || row == DiffRow::Removed(line) || row == DiffRow::Added(
            line,
        )) implies (#[trigger] row_text(row)).len() == line.len() + 2 && row_text(row).subrange(
        1,
        line.len() as int + 1,
    ) == line && row_text(row).last() == '\n' by {
        assert(row_text(row).subrange(1, line.len() as int + 1) =~= line);
    }
}

/// A backup is restored exactly where it and the configuration are regular files in one directory
/// and its name is that of a backup of the configuration. Otherwise the first that fails is told.
pub proof fn backups_are_restored_where_they_belong(files: RestoreFiles)
    ensures
        restore_fault(files) is None <==> files.config_is_regular && files.backup_is_regular
            && files.same_directory && names_match(files),
        restore_fault(files) == Some(RestoreError::ConfigIsNotAFile) <==> !files.config_is_regular,
        restore_fault(files) == Some(RestoreError::BackupIsNotAFile) <==> files.config_is_regular
            && !files.backup_is_regular,
        restore_fault(files) == Some(RestoreError::BackupIsElsewhere) <==> files.config_is_regular
            && files.backup_is_regular && !files.same_directory,
        names_match(files) ==> files.config_name is Some && files.backup_name is Some && occurs_at(
            files.backup_name->0@,
            files.config_name->0@ + ".arena-next-backup-"@,
            0,
        ),
{
}

/// Turning a log on repairs every section that is named after it, leaves every other section as it
/// is, and adds a section at the end where there is none.
pub proof fn turning_a_log_on_repairs_its_sections(
    sections: Seq<SectionModel>,
    component: Seq<char>,
    i: int,
)
    requires
        0 <= i < sections.len(),
    ensures
        ({
            let all = with_component(sections, component);
            let wanted = required_settings(component);
            let there = exists|k: int|
                0 <= k < sections.len() && named(#[trigger] sections[k], component);
            &&& !named(sections[i], component) ==> all[i] == sections[i]
            &&& named(sections[i], component) ==> all[i].name == sections[i].name && all[i].lines
                == with_settings(sections[i].lines, wanted)
            &&& there ==> all.len() == sections.len()
            &&& !there ==> all.len() == sections.len() + 1 && all.last().name == Some(component)
                && all.last().lines == with_settings(
                seq![seq!['['] + component + seq![']']],
                wanted,
            )
        }),
{
    reveal_strlit("[");
    reveal_strlit("]");
    assert("["@ =~= seq!['[']);
    assert("]"@ =~= seq![']']);
    assert forall|k: int| 0 <= k < sections.len() implies is_for(#[trigger] sections[k], component)
        == named(sections[k], component) by {
        if let Some(own) = sections[k].name {
            words_are_compared_without_case(own, component);
        }
    }
    if exists|k: int| 0 <= k < sections.len() && named(#[trigger] sections[k], component) {
        let k = choose|k: int|
            0 <= k < sections.len() && named(#[trigger] sections[k], component);
        assert(is_for(sections[k], component));
    }
    assert(is_for(sections[i], component) == named(sections[i], component));
}

/// A section is named by what stands between the brackets of its heading, without the white space
/// around it.
pub proof fn headings_name_their_section(left: Seq<char>, name: Seq<char>, right: Seq<char>)
    requires
        blank(left),
        blank(right),
    ensures
        header_name(left + seq!['['] + name + seq![']'] + right) == Some(trimmed(name)),
{
    let inner = seq!['['] + name + seq![']'];
    let line = left + seq!['['] + name + seq![']'] + right;
    assert(line =~= left + inner + right);
    let t = trimmed(line);
    trimming_takes_white_space_only(line);
    let (before, after) = choose|before: Seq<char>, after: Seq<char>|
        blank(before) && blank(after) && line == #[trigger] (before + t + after);
    let first = left.len() as int;
    let last = first + inner.len() - 1;
    assert(line[first] == '[' && line[last] == ']');
    assert(!is_space('[') && !is_space(']'));
    if blank(line) {
        assert(is_space(line[first]));
    }
    assert(t[0] == line[before.len() as int]);
    assert(t.last() == line[before.len() + t.len() - 1]);
    if before.len() < first {
        assert(line[before.len() as int] == left[before.len() as int]);
    }
    if before.len() > first {
        assert(line[first] == before[first]);
    }
    if before.len() + t.len() - 1 > last {
        assert(t.last() == right[before.len() + t.len() - 1 - last - 1]);
    }
    if before.len() + t.len() - 1 < last {
        assert(line[last] == after[last - before.len() - t.len()]);
    }
    assert(before.len() == first && t.len() == inner.len());
    assert(t =~= (before + t + after).subrange(first, last + 1));
    assert(inner =~= (left + inner + right).subrange(first, last + 1));
    assert(inner.subrange(1, inner.len() - 1) =~= name);
}

/// A restored configuration is told by its path and backup. What stood there before is kept, and
/// the game has to be started again, exactly where the two differ.
pub proof fn restored_configurations_keep_what_was_there(
    path: &str,
    backup: &str,
    files: RestoreFiles,
    current: &str,
    restored: &str,
    preserved: String,
    done: LoggingRestore,
)
    requires
        call_ensures(
            restore_from_backup,
            (path, backup, &files, current, restored, preserved),
            Ok::<LoggingRestore, RestoreError>(done),
        ),
    ensures
        done.path@ == path@,
        done.restored_from@ == backup@,
        done.configuration_changed <==> current@ != restored@,
        done.hearthstone_restart_required <==> done.configuration_changed,
        done.preserved_current_backup is Some <==> done.configuration_changed,
        done.preserved_current_backup matches Some(kept) ==> kept@ == preserved@,
{
}

/// Logging is turned on by writing the configuration again only where it changes, and then no
/// further change is needed.
pub proof fn configurations_are_written_where_they_change(
    path: &str,
    there: bool,
    original: &str,
    r: EnableOutcome,
)
    requires
        call_ensures(enable_file_logging, (path, there, original), r),
    ensures
        r.updated is None <==> enabled_config(original@) == original@,
        r.updated matches Some(u) ==> u@ == enabled_config(original@) && u@ != original@,
        !r.status.change_required,
{
}

/// The latest backup is a regular file that is named as a backup of the configuration, and none of
/// the others is newer.
pub proof fn the_newest_backup_is_found(
    config: Seq<char>,
    entries: Seq<DirectoryEntry>,
    at: int,
    j: int,
)
    requires
        is_latest(config, entries, at),
        0 <= j < entries.len(),
    ensures
        entries[at].regular,
        backup_time(config, entries[at].name@) is Some,
        entries[j].regular ==> (backup_time(config, entries[j].name@) matches Some(t) ==> t
            <= backup_time(config, entries[at].name@)->0),
        !entries[j].regular ==> at != j,
{
    assert(entry_time(config, entries[j]) is Some || !entries[j].regular || backup_time(
        config,
        entries[j].name@,
    ) is None);
}

} // verus!
