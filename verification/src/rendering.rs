//! What the rendered configuration reads back as, key by key.

use vstd::prelude::*;

use crate::calibration;
use crate::config_file;
use crate::decimal;
use crate::decimal::Decimal;
use crate::number;
use crate::onboard;
use crate::onboard::FactsView;
use crate::reading;

verus! {

/// The value of a key among those of the device and its login.
pub open spec fn identity_entry(f: FactsView, key: Seq<char>) -> Option<Seq<char>> {
    if key == "receiver_id"@ {
        Some(config_file::quoted(f.receiver_id->0))
    } else if key == "sensor_id"@ {
        Some(config_file::quoted(f.sensor_id->0))
    } else if key == "mqtt_user"@ {
        Some(config_file::quoted(f.mqtt_user->0))
    } else if key == "mqtt_pass"@ {
        Some(config_file::quoted(f.mqtt_pass->0))
    } else if key == "firmware_version"@ {
        Some(config_file::quoted(f.firmware->0))
    } else if key == "sensor_name"@ {
        Some(config_file::quoted(onboard::display_name(f)))
    } else {
        None
    }
}

/// The value of a key among those of the settings.
pub open spec fn setting_entry(f: FactsView, data_dir: Seq<char>, key: Seq<char>) -> Option<Seq<char>> {
    if key == "radar_skip"@ {
        Some(number::integer_text(onboard::or_nine(f.radar_skip) as int))
    } else if key == "radar_repeat"@ {
        Some(number::integer_text(onboard::or_nine(f.radar_repeat) as int))
    } else if key == "bind_addr"@ {
        Some(config_file::quoted("0.0.0.0"@))
    } else if key == "listen_port"@ {
        Some("1883"@)
    } else if key == "ping_interval_secs"@ {
        Some("1200"@)
    } else if key == "data_dir"@ {
        Some(config_file::quoted(data_dir))
    } else if key == "history_max_len"@ {
        Some("500"@)
    } else if key == "pump_out_drop_pct"@ {
        Some("25"@)
    } else {
        None
    }
}

/// The value of a key among those of the calibration.
pub open spec fn tank_entry(key: Seq<char>) -> Option<Seq<char>> {
    if key == "full_dist"@ {
        Some(decimal::decimal_text(calibration::default_calibration().full_dist))
    } else if key == "empty_dist"@ {
        Some(decimal::decimal_text(calibration::default_calibration().empty_dist))
    } else {
        None
    }
}

/// The value of a key among those of the state.
pub open spec fn seed_entry(f: FactsView, key: Seq<char>) -> Option<Seq<char>> {
    if key == "lvl"@ {
        Some(decimal::decimal_text(f.seed->0.lvl))
    } else if key == "pct"@ {
        Some(number::integer_text(f.seed->0.pct as int))
    } else if key == "bat"@ {
        Some(number::integer_text(f.seed->0.bat as int))
    } else if key == "days_left"@ {
        Some(number::integer_text(f.seed->0.days_left as int))
    } else if key == "lvl_to_full"@ {
        Some(number::integer_text(f.seed->0.lvl_to_full as int))
    } else if key == "lst_empty"@ {
        Some(config_file::quoted(f.seed->0.lst_empty))
    } else if key == "from"@ {
        Some(config_file::quoted(f.seed->0.from))
    } else {
        None
    }
}

/// The value of a key in the configuration file for complete facts, section by section.
pub open spec fn config_entry(
    f: FactsView,
    data_dir: Seq<char>,
    section: Seq<char>,
    key: Seq<char>,
) -> Option<Seq<char>> {
    if section.len() == 0 {
        reading::or_else(identity_entry(f, key), setting_entry(f, data_dir, key))
    } else if section == "[calibration]"@ {
        tank_entry(key)
    } else if section == "[state]"@ {
        seed_entry(f, key)
    } else {
        None
    }
}

/// Whether what the configuration file quotes can stand in it as it is.
pub open spec fn printable_facts(f: FactsView, data_dir: Seq<char>) -> bool {
    &&& config_file::printable(f.receiver_id->0)
    &&& config_file::printable(f.sensor_id->0)
    &&& config_file::printable(f.mqtt_user->0)
    &&& config_file::printable(f.mqtt_pass->0)
    &&& config_file::printable(f.firmware->0)
    &&& config_file::printable(onboard::display_name(f))
    &&& config_file::printable(f.seed->0.lst_empty)
    &&& config_file::printable(f.seed->0.from)
    &&& config_file::printable(data_dir)
}

/// A name of letters and underscores is a key, and has no line break.
proof fn name_is_key(name: Seq<char>)
    requires
        name.len() > 0,
        name[0] != '[',
        name[0] != '#',
        config_file::lacks(name, ' ', 0),
        config_file::lacks(name, '\n', 0),
    ensures
        config_file::is_key(name),
        !name.contains('\n'),
{
    config_file::lacking_is_not_containing(name, ' ', 0);
    config_file::lacking_is_not_containing(name, '\n', 0);
}

/// The names in the first part of the configuration file are keys.
proof fn identity_keys()
    ensures
        config_file::is_key("receiver_id"@) && !"receiver_id"@.contains('\n'),
        config_file::is_key("sensor_id"@) && !"sensor_id"@.contains('\n'),
        config_file::is_key("mqtt_user"@) && !"mqtt_user"@.contains('\n'),
        config_file::is_key("mqtt_pass"@) && !"mqtt_pass"@.contains('\n'),
        config_file::is_key("firmware_version"@) && !"firmware_version"@.contains('\n'),
        config_file::is_key("sensor_name"@) && !"sensor_name"@.contains('\n'),
        config_file::is_key("radar_skip"@) && !"radar_skip"@.contains('\n'),
{
    reveal_with_fuel(config_file::lacks, 20);
    reveal_strlit("receiver_id");
    name_is_key("receiver_id"@);
    reveal_strlit("sensor_id");
    name_is_key("sensor_id"@);
    reveal_strlit("mqtt_user");
    name_is_key("mqtt_user"@);
    reveal_strlit("mqtt_pass");
    name_is_key("mqtt_pass"@);
    reveal_strlit("firmware_version");
    name_is_key("firmware_version"@);
    reveal_strlit("sensor_name");
    name_is_key("sensor_name"@);
    reveal_strlit("radar_skip");
    name_is_key("radar_skip"@);
}

/// The names in the second part of the configuration file are keys.
proof fn setting_keys()
    ensures
        config_file::is_key("radar_repeat"@) && !"radar_repeat"@.contains('\n'),
        config_file::is_key("bind_addr"@) && !"bind_addr"@.contains('\n'),
        config_file::is_key("listen_port"@) && !"listen_port"@.contains('\n'),
        config_file::is_key("ping_interval_secs"@) && !"ping_interval_secs"@.contains('\n'),
        config_file::is_key("data_dir"@) && !"data_dir"@.contains('\n'),
        config_file::is_key("history_max_len"@) && !"history_max_len"@.contains('\n'),
        config_file::is_key("pump_out_drop_pct"@) && !"pump_out_drop_pct"@.contains('\n'),
{
    reveal_with_fuel(config_file::lacks, 20);
    reveal_strlit("radar_repeat");
    name_is_key("radar_repeat"@);
    reveal_strlit("bind_addr");
    name_is_key("bind_addr"@);
    reveal_strlit("listen_port");
    name_is_key("listen_port"@);
    reveal_strlit("ping_interval_secs");
    name_is_key("ping_interval_secs"@);
    reveal_strlit("data_dir");
    name_is_key("data_dir"@);
    reveal_strlit("history_max_len");
    name_is_key("history_max_len"@);
    reveal_strlit("pump_out_drop_pct");
    name_is_key("pump_out_drop_pct"@);
}

/// The names in the sections of the configuration file are keys.
proof fn section_keys()
    ensures
        config_file::is_key("full_dist"@) && !"full_dist"@.contains('\n'),
        config_file::is_key("empty_dist"@) && !"empty_dist"@.contains('\n'),
        config_file::is_key("lvl"@) && !"lvl"@.contains('\n'),
        config_file::is_key("pct"@) && !"pct"@.contains('\n'),
        config_file::is_key("bat"@) && !"bat"@.contains('\n'),
        config_file::is_key("days_left"@) && !"days_left"@.contains('\n'),
        config_file::is_key("lvl_to_full"@) && !"lvl_to_full"@.contains('\n'),
        config_file::is_key("lst_empty"@) && !"lst_empty"@.contains('\n'),
        config_file::is_key("from"@) && !"from"@.contains('\n'),
{
    reveal_with_fuel(config_file::lacks, 20);
    reveal_strlit("full_dist");
    name_is_key("full_dist"@);
    reveal_strlit("empty_dist");
    name_is_key("empty_dist"@);
    reveal_strlit("lvl");
    name_is_key("lvl"@);
    reveal_strlit("pct");
    name_is_key("pct"@);
    reveal_strlit("bat");
    name_is_key("bat"@);
    reveal_strlit("days_left");
    name_is_key("days_left"@);
    reveal_strlit("lvl_to_full");
    name_is_key("lvl_to_full"@);
    reveal_strlit("lst_empty");
    name_is_key("lst_empty"@);
    reveal_strlit("from");
    name_is_key("from"@);
}

/// The comments of the configuration file are lines.
proof fn comments_are_lines()
    ensures
        config_file::silent(
            "# Generated by aquilo-server onboarding — recovered from your live device."@,
        ),
        !"# Generated by aquilo-server onboarding — recovered from your live device."@.contains('\n'),
        config_file::silent(
            "# All topics derive from receiver_id; the firmware came from the device's own"@,
        ),
        !"# All topics derive from receiver_id; the firmware came from the device's own"@.contains('\n'),
        config_file::silent(
            "# /log announcement. Calibration is the documented default (40/178); adjust"@,
        ),
        !"# /log announcement. Calibration is the documented default (40/178); adjust"@.contains('\n'),
        config_file::silent(
            "# full_dist/empty_dist if pct/lvlToFull don't match your tank."@,
        ),
        !"# full_dist/empty_dist if pct/lvlToFull don't match your tank."@.contains('\n'),
{
    reveal_with_fuel(config_file::lacks, 80);
    reveal_strlit("# Generated by aquilo-server onboarding — recovered from your live device.");
    config_file::lacking_is_not_containing(
        "# Generated by aquilo-server onboarding — recovered from your live device."@,
        '\n',
        0,
    );
    reveal_strlit("# All topics derive from receiver_id; the firmware came from the device's own");
    config_file::lacking_is_not_containing(
        "# All topics derive from receiver_id; the firmware came from the device's own"@,
        '\n',
        0,
    );
    reveal_strlit("# /log announcement. Calibration is the documented default (40/178); adjust");
    config_file::lacking_is_not_containing(
        "# /log announcement. Calibration is the documented default (40/178); adjust"@,
        '\n',
        0,
    );
    reveal_strlit("# full_dist/empty_dist if pct/lvlToFull don't match your tank.");
    config_file::lacking_is_not_containing(
        "# full_dist/empty_dist if pct/lvlToFull don't match your tank."@,
        '\n',
        0,
    );
}

/// The fixed values and the sections of the configuration file are lines.
proof fn fixed_values_are_lines()
    ensures
        !"0.0.0.0"@.contains('\n') && !"1883"@.contains('\n') && !"1200"@.contains('\n'),
        !"500"@.contains('\n') && !"25"@.contains('\n'),
        !"[calibration]"@.contains('\n') && !"[state]"@.contains('\n'),
        "[calibration]"@.len() == 13 && "[state]"@.len() == 7,
        "[calibration]"@[0] == '[' && "[state]"@[0] == '[',
        config_file::printable("0.0.0.0"@),
{
    reveal_with_fuel(config_file::lacks, 15);
    reveal_strlit("0.0.0.0");
    config_file::lacking_is_not_containing("0.0.0.0"@, '\n', 0);
    reveal_strlit("1883");
    config_file::lacking_is_not_containing("1883"@, '\n', 0);
    reveal_strlit("1200");
    config_file::lacking_is_not_containing("1200"@, '\n', 0);
    reveal_strlit("500");
    config_file::lacking_is_not_containing("500"@, '\n', 0);
    reveal_strlit("25");
    config_file::lacking_is_not_containing("25"@, '\n', 0);
    reveal_strlit("[calibration]");
    config_file::lacking_is_not_containing("[calibration]"@, '\n', 0);
    reveal_strlit("[state]");
    config_file::lacking_is_not_containing("[state]"@, '\n', 0);
    let s = "0.0.0.0"@;
    assert forall|i: int| 0 <= i < s.len() implies #[trigger] s[i] == '0' || s[i] == '.' by {
        assert(i == 0 || i == 1 || i == 2 || i == 3 || i == 4 || i == 5 || i == 6);
    }
}

/// A printable text has no line break.
proof fn printable_is_one_line(s: Seq<char>)
    requires
        config_file::printable(s),
    ensures
        !s.contains('\n'),
{
    if s.contains('\n') {
        let i = choose|i: int| 0 <= i < s.len() && s[i] == '\n';
        assert(s[i] >= ' ');
    }
}

/// No line of the configuration file holds a line break.
proof fn config_lines_are_lines(f: FactsView, data_dir: Seq<char>)
    requires
        printable_facts(f, data_dir),
    ensures
        config_file::text_lines(onboard::config_text(f, data_dir)) == onboard::config_lines(f, data_dir),
{
    let lines = onboard::config_lines(f, data_dir);
    identity_keys();
    setting_keys();
    section_keys();
    comments_are_lines();
    fixed_values_are_lines();
    printable_is_one_line(f.receiver_id->0);
    config_file::entry_is_one_line("receiver_id"@, f.receiver_id->0);
    config_file::entry_is_one_line("receiver_id"@, config_file::quoted(f.receiver_id->0));
    printable_is_one_line(f.sensor_id->0);
    config_file::entry_is_one_line("sensor_id"@, f.sensor_id->0);
    config_file::entry_is_one_line("sensor_id"@, config_file::quoted(f.sensor_id->0));
    printable_is_one_line(f.mqtt_user->0);
    config_file::entry_is_one_line("mqtt_user"@, f.mqtt_user->0);
    config_file::entry_is_one_line("mqtt_user"@, config_file::quoted(f.mqtt_user->0));
    printable_is_one_line(f.mqtt_pass->0);
    config_file::entry_is_one_line("mqtt_pass"@, f.mqtt_pass->0);
    config_file::entry_is_one_line("mqtt_pass"@, config_file::quoted(f.mqtt_pass->0));
    printable_is_one_line(f.firmware->0);
    config_file::entry_is_one_line("firmware_version"@, f.firmware->0);
    config_file::entry_is_one_line("firmware_version"@, config_file::quoted(f.firmware->0));
    printable_is_one_line(onboard::display_name(f));
    config_file::entry_is_one_line("sensor_name"@, onboard::display_name(f));
    config_file::entry_is_one_line("sensor_name"@, config_file::quoted(onboard::display_name(f)));
    number::integer_text_is_one_line(onboard::or_nine(f.radar_skip) as int);
    config_file::entry_is_one_line(
        "radar_skip"@,
        number::integer_text(onboard::or_nine(f.radar_skip) as int),
    );
    number::integer_text_is_one_line(onboard::or_nine(f.radar_repeat) as int);
    config_file::entry_is_one_line(
        "radar_repeat"@,
        number::integer_text(onboard::or_nine(f.radar_repeat) as int),
    );
    config_file::entry_is_one_line("bind_addr"@, "0.0.0.0"@);
    config_file::entry_is_one_line("bind_addr"@, config_file::quoted("0.0.0.0"@));
    config_file::entry_is_one_line("listen_port"@, "1883"@);
    config_file::entry_is_one_line("ping_interval_secs"@, "1200"@);
    printable_is_one_line(data_dir);
    config_file::entry_is_one_line("data_dir"@, data_dir);
    config_file::entry_is_one_line("data_dir"@, config_file::quoted(data_dir));
    config_file::entry_is_one_line("history_max_len"@, "500"@);
    config_file::entry_is_one_line("pump_out_drop_pct"@, "25"@);
    decimal::decimal_text_is_one_line(calibration::default_calibration().full_dist);
    config_file::entry_is_one_line(
        "full_dist"@,
        decimal::decimal_text(calibration::default_calibration().full_dist),
    );
    decimal::decimal_text_is_one_line(calibration::default_calibration().empty_dist);
    config_file::entry_is_one_line(
        "empty_dist"@,
        decimal::decimal_text(calibration::default_calibration().empty_dist),
    );
    decimal::decimal_text_is_one_line(f.seed->0.lvl);
    config_file::entry_is_one_line("lvl"@, decimal::decimal_text(f.seed->0.lvl));
    number::integer_text_is_one_line(f.seed->0.pct as int);
    config_file::entry_is_one_line("pct"@, number::integer_text(f.seed->0.pct as int));
    number::integer_text_is_one_line(f.seed->0.bat as int);
    config_file::entry_is_one_line("bat"@, number::integer_text(f.seed->0.bat as int));
    number::integer_text_is_one_line(f.seed->0.days_left as int);
    config_file::entry_is_one_line("days_left"@, number::integer_text(f.seed->0.days_left as int));
    number::integer_text_is_one_line(f.seed->0.lvl_to_full as int);
    config_file::entry_is_one_line(
        "lvl_to_full"@,
        number::integer_text(f.seed->0.lvl_to_full as int),
    );
    printable_is_one_line(f.seed->0.lst_empty);
    config_file::entry_is_one_line("lst_empty"@, f.seed->0.lst_empty);
    config_file::entry_is_one_line("lst_empty"@, config_file::quoted(f.seed->0.lst_empty));
    printable_is_one_line(f.seed->0.from);
    config_file::entry_is_one_line("from"@, f.seed->0.from);
    config_file::entry_is_one_line("from"@, config_file::quoted(f.seed->0.from));
    assert(!lines[0].contains('\n'));
    assert(!lines[1].contains('\n'));
    assert(!lines[2].contains('\n'));
    assert(!lines[3].contains('\n'));
    assert(!lines[4].contains('\n'));
    assert(!lines[5].contains('\n'));
    assert(!lines[6].contains('\n'));
    assert(!lines[7].contains('\n'));
    assert(!lines[8].contains('\n'));
    assert(!lines[9].contains('\n'));
    assert(!lines[10].contains('\n'));
    assert(!lines[11].contains('\n'));
    assert(!lines[12].contains('\n'));
    assert(!lines[13].contains('\n'));
    assert(!lines[14].contains('\n'));
    assert(!lines[15].contains('\n'));
    assert(!lines[16].contains('\n'));
    assert(!lines[17].contains('\n'));
    assert(!lines[18].contains('\n'));
    assert(!lines[19].contains('\n'));
    assert(!lines[20].contains('\n'));
    assert(!lines[21].contains('\n'));
    assert(!lines[22].contains('\n'));
    assert(!lines[23].contains('\n'));
    assert(!lines[24].contains('\n'));
    assert(!lines[25].contains('\n'));
    assert(!lines[26].contains('\n'));
    assert(!lines[27].contains('\n'));
    assert(!lines[28].contains('\n'));
    assert(!lines[29].contains('\n'));
    assert(!lines[30].contains('\n'));
    assert(!lines[31].contains('\n'));
    assert(!lines[32].contains('\n'));
    assert(!lines[33].contains('\n'));
    assert(!lines[34].contains('\n'));
    assert forall|i: int| 0 <= i < lines.len() implies !(#[trigger] lines[i]).contains('\n') by {
        assert(lines.len() == 35);
    }
    config_file::law_lines_are_read_back(lines);
}

/// The lines of the device and its login give their values, and are passed over otherwise.
proof fn identity_lines_read(
    f: FactsView,
    data_dir: Seq<char>,
    section: Seq<char>,
    key: Seq<char>,
)
    requires
        config_file::is_key(key),
    ensures
        ({
            let lines = onboard::config_lines(f, data_dir);
            let here = Seq::<char>::empty();
            config_file::value_from(lines, 0, here, section, key) == reading::or_else(
                if section == here {
                    identity_entry(f, key)
                } else {
                    None
                },
                config_file::value_from(lines, 12, here, section, key),
            )
        }),
{
    identity_keys();
    setting_keys();
    comments_are_lines();
    let lines = onboard::config_lines(f, data_dir);
    let here = Seq::<char>::empty();
    config_file::silent_line(lines, 0, here, section, key);
    config_file::silent_line(lines, 1, here, section, key);
    config_file::silent_line(lines, 2, here, section, key);
    config_file::silent_line(lines, 3, here, section, key);
    config_file::silent_line(lines, 4, here, section, key);
    config_file::entry_line(
        lines,
        5,
        "receiver_id"@,
        config_file::quoted(f.receiver_id->0),
        here,
        section,
        key,
    );
    config_file::entry_line(
        lines,
        6,
        "sensor_id"@,
        config_file::quoted(f.sensor_id->0),
        here,
        section,
        key,
    );
    config_file::entry_line(
        lines,
        7,
        "mqtt_user"@,
        config_file::quoted(f.mqtt_user->0),
        here,
        section,
        key,
    );
    config_file::entry_line(
        lines,
        8,
        "mqtt_pass"@,
        config_file::quoted(f.mqtt_pass->0),
        here,
        section,
        key,
    );
    config_file::entry_line(
        lines,
        9,
        "firmware_version"@,
        config_file::quoted(f.firmware->0),
        here,
        section,
        key,
    );
    config_file::entry_line(
        lines,
        10,
        "sensor_name"@,
        config_file::quoted(onboard::display_name(f)),
        here,
        section,
        key,
    );
    config_file::silent_line(lines, 11, here, section, key);
}

/// The lines of the settings give their values, and are passed over otherwise.
proof fn setting_lines_read(
    f: FactsView,
    data_dir: Seq<char>,
    section: Seq<char>,
    key: Seq<char>,
)
    requires
        config_file::is_key(key),
    ensures
        ({
            let lines = onboard::config_lines(f, data_dir);
            let here = Seq::<char>::empty();
            config_file::value_from(lines, 12, here, section, key) == reading::or_else(
                if section == here {
                    setting_entry(f, data_dir, key)
                } else {
                    None
                },
                config_file::value_from(lines, 23, here, section, key),
            )
        }),
{
    identity_keys();
    setting_keys();
    let lines = onboard::config_lines(f, data_dir);
    let here = Seq::<char>::empty();
    config_file::entry_line(
        lines,
        12,
        "radar_skip"@,
        number::integer_text(onboard::or_nine(f.radar_skip) as int),
        here,
        section,
        key,
    );
    config_file::entry_line(
        lines,
        13,
        "radar_repeat"@,
        number::integer_text(onboard::or_nine(f.radar_repeat) as int),
        here,
        section,
        key,
    );
    config_file::silent_line(lines, 14, here, section, key);
    config_file::entry_line(
        lines,
        15,
        "bind_addr"@,
        config_file::quoted("0.0.0.0"@),
        here,
        section,
        key,
    );
    config_file::entry_line(lines, 16, "listen_port"@, "1883"@, here, section, key);
    config_file::entry_line(lines, 17, "ping_interval_secs"@, "1200"@, here, section, key);
    config_file::silent_line(lines, 18, here, section, key);
    config_file::entry_line(
        lines,
        19,
        "data_dir"@,
        config_file::quoted(data_dir),
        here,
        section,
        key,
    );
    config_file::entry_line(lines, 20, "history_max_len"@, "500"@, here, section, key);
    config_file::entry_line(lines, 21, "pump_out_drop_pct"@, "25"@, here, section, key);
    config_file::silent_line(lines, 22, here, section, key);
}

/// The lines of the calibration give their values, and are passed over otherwise.
proof fn tank_lines_read(
    f: FactsView,
    data_dir: Seq<char>,
    section: Seq<char>,
    key: Seq<char>,
)
    requires
        config_file::is_key(key),
    ensures
        ({
            let lines = onboard::config_lines(f, data_dir);
            let here = "[calibration]"@;
            config_file::value_from(lines, 24, here, section, key) == reading::or_else(
                if section == here {
                    tank_entry(key)
                } else {
                    None
                },
                config_file::value_from(lines, 27, here, section, key),
            )
        }),
{
    section_keys();
    let lines = onboard::config_lines(f, data_dir);
    let here = "[calibration]"@;
    config_file::entry_line(
        lines,
        24,
        "full_dist"@,
        decimal::decimal_text(calibration::default_calibration().full_dist),
        here,
        section,
        key,
    );
    config_file::entry_line(
        lines,
        25,
        "empty_dist"@,
        decimal::decimal_text(calibration::default_calibration().empty_dist),
        here,
        section,
        key,
    );
    config_file::silent_line(lines, 26, here, section, key);
}

/// The lines of the state give their values, and are passed over otherwise.
proof fn seed_lines_read(
    f: FactsView,
    data_dir: Seq<char>,
    section: Seq<char>,
    key: Seq<char>,
)
    requires
        config_file::is_key(key),
    ensures
        ({
            let lines = onboard::config_lines(f, data_dir);
            let here = "[state]"@;
            config_file::value_from(lines, 28, here, section, key) == reading::or_else(
                if section == here {
                    seed_entry(f, key)
                } else {
                    None
                },
                config_file::value_from(lines, 35, here, section, key),
            )
        }),
{
    section_keys();
    let lines = onboard::config_lines(f, data_dir);
    let here = "[state]"@;
    config_file::entry_line(
        lines,
        28,
        "lvl"@,
        decimal::decimal_text(f.seed->0.lvl),
        here,
        section,
        key,
    );
    config_file::entry_line(
        lines,
        29,
        "pct"@,
        number::integer_text(f.seed->0.pct as int),
        here,
        section,
        key,
    );
    config_file::entry_line(
        lines,
        30,
        "bat"@,
        number::integer_text(f.seed->0.bat as int),
        here,
        section,
        key,
    );
    config_file::entry_line(
        lines,
        31,
        "days_left"@,
        number::integer_text(f.seed->0.days_left as int),
        here,
        section,
        key,
    );
    config_file::entry_line(
        lines,
        32,
        "lvl_to_full"@,
        number::integer_text(f.seed->0.lvl_to_full as int),
        here,
        section,
        key,
    );
    config_file::entry_line(
        lines,
        33,
        "lst_empty"@,
        config_file::quoted(f.seed->0.lst_empty),
        here,
        section,
        key,
    );
    config_file::entry_line(
        lines,
        34,
        "from"@,
        config_file::quoted(f.seed->0.from),
        here,
        section,
        key,
    );
}

/// Exact contents: the configuration file, read key by key, has the keys of [`config_entry`]
/// with their values, and no others.
pub proof fn law_rendered_config_is_its_table(
    f: FactsView,
    data_dir: Seq<char>,
    section: Seq<char>,
    key: Seq<char>,
)
    requires
        printable_facts(f, data_dir),
        config_file::is_key(key),
    ensures
        config_file::config_value(onboard::config_text(f, data_dir), section, key) == config_entry(
            f,
            data_dir,
            section,
            key,
        ),
{
    config_lines_are_lines(f, data_dir);
    fixed_values_are_lines();
    identity_lines_read(f, data_dir, section, key);
    setting_lines_read(f, data_dir, section, key);
    tank_lines_read(f, data_dir, section, key);
    seed_lines_read(f, data_dir, section, key);
    let lines = onboard::config_lines(f, data_dir);
    assert(lines.len() == 35 && lines[23] == "[calibration]"@ && lines[27] == "[state]"@);
    assert(config_file::value_from(lines, 35, "[state]"@, section, key) is None);
    if section.len() == 0 {
        assert(section =~= Seq::empty());
    }
}

/// The keys in front of the sections are different from one another.
proof fn top_keys_differ()
    ensures
        seq![
            "receiver_id"@,
            "sensor_id"@,
            "mqtt_user"@,
            "mqtt_pass"@,
            "firmware_version"@,
            "sensor_name"@,
            "radar_skip"@,
            "radar_repeat"@,
            "bind_addr"@,
            "listen_port"@,
            "ping_interval_secs"@,
            "data_dir"@,
            "history_max_len"@,
            "pump_out_drop_pct"@,
        ].no_duplicates(),
{
    reveal_strlit("receiver_id");
    reveal_strlit("sensor_id");
    reveal_strlit("mqtt_user");
    reveal_strlit("mqtt_pass");
    reveal_strlit("firmware_version");
    reveal_strlit("sensor_name");
    reveal_strlit("radar_skip");
    reveal_strlit("radar_repeat");
    reveal_strlit("bind_addr");
    reveal_strlit("listen_port");
    reveal_strlit("ping_interval_secs");
    reveal_strlit("data_dir");
    reveal_strlit("history_max_len");
    reveal_strlit("pump_out_drop_pct");
    assert("receiver_id"@.len() == 11);
    assert("sensor_id"@.len() == 9);
    assert("mqtt_user"@.len() == 9);
    assert("mqtt_pass"@.len() == 9);
    assert("firmware_version"@.len() == 16);
    assert("sensor_name"@.len() == 11);
    assert("radar_skip"@.len() == 10);
    assert("radar_repeat"@.len() == 12);
    assert("bind_addr"@.len() == 9);
    assert("listen_port"@.len() == 11);
    assert("ping_interval_secs"@.len() == 18);
    assert("data_dir"@.len() == 8);
    assert("history_max_len"@.len() == 15);
    assert("pump_out_drop_pct"@.len() == 17);
    assert("receiver_id"@[0] == 'r' && "sensor_name"@[0] == 's' && "listen_port"@[0] == 'l');
    assert("sensor_id"@[0] == 's' && "bind_addr"@[0] == 'b');
    assert("mqtt_user"@[0] == 'm' && "mqtt_user"@[5] == 'u');
    assert("mqtt_pass"@[0] == 'm' && "mqtt_pass"@[5] == 'p');
}

/// The keys of the state section are different from one another.
proof fn state_keys_differ()
    ensures
        seq![
            "lvl"@,
            "pct"@,
            "bat"@,
            "days_left"@,
            "lvl_to_full"@,
            "lst_empty"@,
            "from"@,
        ].no_duplicates(),
{
    reveal_strlit("lvl");
    reveal_strlit("pct");
    reveal_strlit("bat");
    reveal_strlit("days_left");
    reveal_strlit("lvl_to_full");
    reveal_strlit("lst_empty");
    reveal_strlit("from");
    assert("lvl"@.len() == 3);
    assert("pct"@.len() == 3);
    assert("bat"@.len() == 3);
    assert("days_left"@.len() == 9);
    assert("lvl_to_full"@.len() == 11);
    assert("lst_empty"@.len() == 9);
    assert("from"@.len() == 4);
    assert("lvl"@[0] == 'l' && "pct"@[0] == 'p' && "bat"@[0] == 'b');
    assert("days_left"@[0] == 'd' && "lst_empty"@[0] == 'l');
}

/// The integer of a key in a configuration file.
pub open spec fn config_integer(file: Seq<char>, section: Seq<char>, key: Seq<char>) -> Option<i64> {
    match config_file::config_value(file, section, key) {
        Some(value) => number::i64_of(value),
        None => None,
    }
}

/// The decimal of a key in a configuration file.
pub open spec fn config_decimal(file: Seq<char>, section: Seq<char>, key: Seq<char>) -> Option<
    Decimal,
> {
    match config_file::config_value(file, section, key) {
        Some(value) => decimal::decimal_of(value),
        None => None,
    }
}

/// The fixed numbers of the configuration file are the integers that they spell.
proof fn fixed_numbers()
    ensures
        number::i64_of("1883"@) == Some(1883i64),
        number::i64_of("1200"@) == Some(1200i64),
        number::i64_of("500"@) == Some(500i64),
        number::i64_of("25"@) == Some(25i64),
{
    reveal_with_fuel(number::natural_text, 5);
    reveal_strlit("1883");
    number::law_integer_text_reads_back(1883);
    assert("1883"@ =~= number::integer_text(1883));
    reveal_strlit("1200");
    number::law_integer_text_reads_back(1200);
    assert("1200"@ =~= number::integer_text(1200));
    reveal_strlit("500");
    number::law_integer_text_reads_back(500);
    assert("500"@ =~= number::integer_text(500));
    reveal_strlit("25");
    number::law_integer_text_reads_back(25);
    assert("25"@ =~= number::integer_text(25));
}

/// Identity and settings: the rendered configuration, read back, names the device, its login
/// and its firmware as they were recovered, with the documented defaults for the rest.
pub proof fn law_rendered_config_names_the_facts(f: FactsView, data_dir: Seq<char>)
    requires
        onboard::complete(f),
        printable_facts(f, data_dir),
    ensures
        ({
            let file = onboard::config_text(f, data_dir);
            let top = Seq::<char>::empty();
            &&& config_file::config_string(file, top, "receiver_id"@) == Some(f.receiver_id->0)
            &&& config_file::config_string(file, top, "sensor_id"@) == Some(f.sensor_id->0)
            &&& config_file::config_string(file, top, "mqtt_user"@) == Some(f.mqtt_user->0)
            &&& config_file::config_string(file, top, "mqtt_pass"@) == Some(f.mqtt_pass->0)
            &&& config_file::config_string(file, top, "firmware_version"@) == Some(f.firmware->0)
            &&& config_file::config_string(file, top, "sensor_name"@) == (match f.sensor_name {
                Some(name) => Some(name),
                None => f.sensor_id,
            })
            &&& config_integer(file, top, "radar_skip"@) == (match f.radar_skip {
                Some(n) => Some(n),
                None => Some(9),
            })
            &&& config_integer(file, top, "radar_repeat"@) == (match f.radar_repeat {
                Some(n) => Some(n),
                None => Some(9),
            })
            &&& config_file::config_string(file, top, "bind_addr"@) == Some("0.0.0.0"@)
            &&& config_integer(file, top, "listen_port"@) == Some(1883i64)
            &&& config_integer(file, top, "ping_interval_secs"@) == Some(1200i64)
            &&& config_file::config_string(file, top, "data_dir"@) == Some(data_dir)
            &&& config_integer(file, top, "history_max_len"@) == Some(500i64)
            &&& config_integer(file, top, "pump_out_drop_pct"@) == Some(25i64)
        }),
{
    fixed_numbers();
    fixed_values_are_lines();
    top_keys_differ();
    identity_keys();
    setting_keys();
    number::law_integer_text_reads_back(onboard::or_nine(f.radar_skip));
    number::law_integer_text_reads_back(onboard::or_nine(f.radar_repeat));
    let top = Seq::<char>::empty();
    let keys = seq![
        "receiver_id"@,
        "sensor_id"@,
        "mqtt_user"@,
        "mqtt_pass"@,
        "firmware_version"@,
        "sensor_name"@,
        "radar_skip"@,
        "radar_repeat"@,
        "bind_addr"@,
        "listen_port"@,
        "ping_interval_secs"@,
        "data_dir"@,
        "history_max_len"@,
        "pump_out_drop_pct"@,
    ];
    assert(keys[0] == "receiver_id"@);
    assert(keys[1] == "sensor_id"@);
    assert(keys[2] == "mqtt_user"@);
    assert(keys[3] == "mqtt_pass"@);
    assert(keys[4] == "firmware_version"@);
    assert(keys[5] == "sensor_name"@);
    assert(keys[6] == "radar_skip"@);
    assert(keys[7] == "radar_repeat"@);
    assert(keys[8] == "bind_addr"@);
    assert(keys[9] == "listen_port"@);
    assert(keys[10] == "ping_interval_secs"@);
    assert(keys[11] == "data_dir"@);
    assert(keys[12] == "history_max_len"@);
    assert(keys[13] == "pump_out_drop_pct"@);
    law_rendered_config_is_its_table(f, data_dir, top, "receiver_id"@);
    config_file::law_quoted_text_is_read_back(f.receiver_id->0);
    law_rendered_config_is_its_table(f, data_dir, top, "sensor_id"@);
    config_file::law_quoted_text_is_read_back(f.sensor_id->0);
    law_rendered_config_is_its_table(f, data_dir, top, "mqtt_user"@);
    config_file::law_quoted_text_is_read_back(f.mqtt_user->0);
    law_rendered_config_is_its_table(f, data_dir, top, "mqtt_pass"@);
    config_file::law_quoted_text_is_read_back(f.mqtt_pass->0);
    law_rendered_config_is_its_table(f, data_dir, top, "firmware_version"@);
    config_file::law_quoted_text_is_read_back(f.firmware->0);
    law_rendered_config_is_its_table(f, data_dir, top, "sensor_name"@);
    config_file::law_quoted_text_is_read_back(onboard::display_name(f));
    law_rendered_config_is_its_table(f, data_dir, top, "radar_skip"@);
    law_rendered_config_is_its_table(f, data_dir, top, "radar_repeat"@);
    law_rendered_config_is_its_table(f, data_dir, top, "bind_addr"@);
    config_file::law_quoted_text_is_read_back("0.0.0.0"@);
    law_rendered_config_is_its_table(f, data_dir, top, "listen_port"@);
    law_rendered_config_is_its_table(f, data_dir, top, "ping_interval_secs"@);
    law_rendered_config_is_its_table(f, data_dir, top, "data_dir"@);
    config_file::law_quoted_text_is_read_back(data_dir);
    law_rendered_config_is_its_table(f, data_dir, top, "history_max_len"@);
    law_rendered_config_is_its_table(f, data_dir, top, "pump_out_drop_pct"@);
}

/// Seed: the rendered configuration, read back, holds the recovered state and the documented
/// default calibration, and no settings of a broker.
pub proof fn law_rendered_config_holds_the_seed(f: FactsView, data_dir: Seq<char>)
    requires
        onboard::complete(f),
        printable_facts(f, data_dir),
        f.seed->0.lvl.canonical(),
    ensures
        ({
            let file = onboard::config_text(f, data_dir);
            let cal = calibration::default_calibration();
            let seed = f.seed->0;
            let tank = "[calibration]"@;
            let state = "[state]"@;
            &&& config_decimal(file, tank, "full_dist"@) == Some(cal.full_dist)
            &&& config_decimal(file, tank, "empty_dist"@) == Some(cal.empty_dist)
            &&& config_decimal(file, state, "lvl"@) == Some(seed.lvl)
            &&& config_integer(file, state, "pct"@) == Some(seed.pct)
            &&& config_integer(file, state, "bat"@) == Some(seed.bat)
            &&& config_integer(file, state, "days_left"@) == Some(seed.days_left)
            &&& config_integer(file, state, "lvl_to_full"@) == Some(seed.lvl_to_full)
            &&& config_file::config_string(file, state, "lst_empty"@) == Some(seed.lst_empty)
            &&& config_file::config_string(file, state, "from"@) == Some(seed.from)
            &&& forall|key: Seq<char>|
                config_file::is_key(key) ==> #[trigger] config_file::config_value(
                    file,
                    "[broker]"@,
                    key,
                ) is None
        }),
{
    fixed_values_are_lines();
    state_keys_differ();
    section_keys();
    reveal_strlit("[broker]");
    reveal_strlit("full_dist");
    reveal_strlit("empty_dist");
    assert("full_dist"@.len() == 9 && "empty_dist"@.len() == 10);
    assert("[broker]"@.len() == 8);
    let cal = calibration::default_calibration();
    decimal::law_decimal_text_reads_back(cal.full_dist);
    decimal::law_decimal_text_reads_back(cal.empty_dist);
    decimal::law_decimal_text_reads_back(f.seed->0.lvl);
    assert forall|key: Seq<char>| config_file::is_key(key) implies #[trigger]
        config_file::config_value(onboard::config_text(f, data_dir), "[broker]"@, key) is None by {
        law_rendered_config_is_its_table(f, data_dir, "[broker]"@, key);
    }
    law_rendered_config_is_its_table(f, data_dir, "[calibration]"@, "full_dist"@);
    law_rendered_config_is_its_table(f, data_dir, "[calibration]"@, "empty_dist"@);
    let keys = seq![
        "lvl"@,
        "pct"@,
        "bat"@,
        "days_left"@,
        "lvl_to_full"@,
        "lst_empty"@,
        "from"@,
    ];
    assert(keys[0] == "lvl"@);
    assert(keys[1] == "pct"@);
    assert(keys[2] == "bat"@);
    assert(keys[3] == "days_left"@);
    assert(keys[4] == "lvl_to_full"@);
    assert(keys[5] == "lst_empty"@);
    assert(keys[6] == "from"@);
    law_rendered_config_is_its_table(f, data_dir, "[state]"@, "lvl"@);
    law_rendered_config_is_its_table(f, data_dir, "[state]"@, "pct"@);
    number::law_integer_text_reads_back(f.seed->0.pct);
    law_rendered_config_is_its_table(f, data_dir, "[state]"@, "bat"@);
    number::law_integer_text_reads_back(f.seed->0.bat);
    law_rendered_config_is_its_table(f, data_dir, "[state]"@, "days_left"@);
    number::law_integer_text_reads_back(f.seed->0.days_left);
    law_rendered_config_is_its_table(f, data_dir, "[state]"@, "lvl_to_full"@);
    number::law_integer_text_reads_back(f.seed->0.lvl_to_full);
    law_rendered_config_is_its_table(f, data_dir, "[state]"@, "lst_empty"@);
    config_file::law_quoted_text_is_read_back(f.seed->0.lst_empty);
    law_rendered_config_is_its_table(f, data_dir, "[state]"@, "from"@);
    config_file::law_quoted_text_is_read_back(f.seed->0.from);
}

} // verus!
