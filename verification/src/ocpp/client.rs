use vstd::prelude::*;

use crate::text::{
    dec, is_digit, is_ws, lemma_dec_digits, lemma_dec_len, lemma_parse_reads_decimal,
    lemma_trim_unchanged, parse_i64, parse_i64_spec, str_eq, trim, trim_str,
};

verus! {

/// Whether `c` is one of the labels a connector or EVSE id may be written with (`e1`, `C2`).
pub open spec fn is_id_label(c: char) -> bool {
    c == 'e' || c == 'c' || c == 'E' || c == 'C'
}

/// The index of the first character at or after `i` that is not an id label.
pub open spec fn skip_id_labels(s: Seq<char>, i: int) -> int
    decreases s.len() - i,
{
    if 0 <= i < s.len() && is_id_label(s[i]) {
        skip_id_labels(s, i + 1)
    } else {
        i
    }
}

/// The text an id is read from: the trimmed input without its leading labels, trimmed again.
pub open spec fn id_text(raw: Seq<char>) -> Seq<char> {
    let t = trim(raw);
    trim(t.skip(skip_id_labels(t, 0)))
}

/// Whether `c` is an id label.
fn id_label_char(c: char) -> (r: bool)
    ensures
        r == is_id_label(c),
{
    c == 'e' || c == 'c' || c == 'E' || c == 'C'
}

proof fn lemma_skip_id_labels_bounds(s: Seq<char>, i: int)
    requires
        0 <= i <= s.len(),
    ensures
        i <= skip_id_labels(s, i) <= s.len(),
    decreases s.len() - i,
{
    if i < s.len() && is_id_label(s[i]) {
        lemma_skip_id_labels_bounds(s, i + 1);
    }
}

/// Parse a connector/EVSE id, tolerating leading `e`/`c` labels in either case (`e1`, `c2`).
pub fn parse_id(raw: &str) -> (r: Option<i64>)
    ensures
        r is Some == parse_i64_spec(id_text(raw@)) is Some,
        r matches Some(v) ==> v == parse_i64_spec(id_text(raw@))->0,
{
    let t = trim_str(raw);
    let n = t.unicode_len();
    let mut i: usize = 0;
    while i < n && id_label_char(t.get_char(i))
        invariant
            n == t@.len(),
            i <= n,
            skip_id_labels(t@, 0) == skip_id_labels(t@, i as int),
        decreases n - i,
    {
        i = i + 1;
    }
    proof {
        lemma_skip_id_labels_bounds(t@, i as int);
    }
    let rest = t.substring_char(i, n);
    assert(rest@ =~= t@.skip(i as int));
    parse_i64(trim_str(rest))
}


/// One row of a state table: name, unit and rendered value.
pub struct NvRowData {
    pub name: String,
    pub unit: String,
    pub value: String,
}

/// Which state row an edit overlay is changing: a connector's metering/status field or
/// a charge-point-level identity field.
#[derive(Debug, Clone, Copy, PartialEq, Eq, Structural)]
pub enum EditField {
    // Connector level.
    EvseId,
    ConnectorId,
    Phases,
    Voltage,
    /// The current of phase 0, 1 or 2.
    Current(usize),
    Power,
    Frequency,
    TotalEnergy,
    SessionEnergy,
    Soc,
    Temperature,
    Status,
    Rfid,
    // Charge-point level.
    Model,
    Vendor,
    FirmwareVersion,
    SerialNumber,
    // Charge-point level, OCPP 1.6 only.
    Iccid,
    Imsi,
    MeterSerialNumber,
    MeterType,
}

/// The field a charge-point-level state row edits: rows 0-3 are the identity fields,
/// rows 4 and 5 (reserved RFID, reservation id) are read-only, rows 6-9 are the OCPP 1.6
/// meter/modem identity fields.
pub open spec fn cs_row_field(row: nat) -> Option<EditField> {
    if row == 0 {
        Some(EditField::Model)
    } else if row == 1 {
        Some(EditField::Vendor)
    } else if row == 2 {
        Some(EditField::FirmwareVersion)
    } else if row == 3 {
        Some(EditField::SerialNumber)
    } else if row == 6 {
        Some(EditField::Iccid)
    } else if row == 7 {
        Some(EditField::Imsi)
    } else if row == 8 {
        Some(EditField::MeterSerialNumber)
    } else if row == 9 {
        Some(EditField::MeterType)
    } else {
        None
    }
}

/// The field an OCPP 2.x connector state row edits: rows 0-14 in table order; the charge
/// limit rows after them are read-only.
pub open spec fn conn_row_field(row: nat) -> Option<EditField> {
    if row == 0 {
        Some(EditField::EvseId)
    } else if row == 1 {
        Some(EditField::ConnectorId)
    } else if row == 2 {
        Some(EditField::Phases)
    } else if row == 3 {
        Some(EditField::Voltage)
    } else if 4 <= row <= 6 {
        Some(EditField::Current((row - 4) as usize))
    } else if row == 7 {
        Some(EditField::Power)
    } else if row == 8 {
        Some(EditField::Frequency)
    } else if row == 9 {
        Some(EditField::TotalEnergy)
    } else if row == 10 {
        Some(EditField::SessionEnergy)
    } else if row == 11 {
        Some(EditField::Soc)
    } else if row == 12 {
        Some(EditField::Temperature)
    } else if row == 13 {
        Some(EditField::Status)
    } else if row == 14 {
        Some(EditField::Rfid)
    } else {
        None
    }
}

/// The state-table name of the row a field edits.
pub open spec fn field_label(f: EditField) -> Seq<char> {
    match f {
        EditField::EvseId => "EVSE ID"@,
        EditField::ConnectorId => "Connector ID"@,
        EditField::Phases => "Used Phases"@,
        EditField::Voltage => "Voltage"@,
        EditField::Current(i) => if i == 0 {
            "Current L1"@
        } else if i == 1 {
            "Current L2"@
        } else {
            "Current L3"@
        },
        EditField::Power => "Power"@,
        EditField::Frequency => "Frequency"@,
        EditField::TotalEnergy => "Total Energy"@,
        EditField::SessionEnergy => "Session Energy"@,
        EditField::Soc => "State of Charge"@,
        EditField::Temperature => "Temperature"@,
        EditField::Status => "Status"@,
        EditField::Rfid => "RFID"@,
        EditField::Model => "Model"@,
        EditField::Vendor => "Vendor"@,
        EditField::FirmwareVersion => "Firmware Version"@,
        EditField::SerialNumber => "Serial Number"@,
        EditField::Iccid => "ICCID"@,
        EditField::Imsi => "IMSI"@,
        EditField::MeterSerialNumber => "Meter Serial Number"@,
        EditField::MeterType => "Meter Type"@,
    }
}

impl EditField {
    /// Map a charge-point-level state-table row to the field it edits; `None` for the
    /// read-only rows (reserved RFID, reservation id) and past the end.
    pub fn from_cs_row(row: usize) -> (r: Option<EditField>)
        ensures
            r == cs_row_field(row as nat),
    {
        match row {
            0 => Some(EditField::Model),
            1 => Some(EditField::Vendor),
            2 => Some(EditField::FirmwareVersion),
            3 => Some(EditField::SerialNumber),
            6 => Some(EditField::Iccid),
            7 => Some(EditField::Imsi),
            8 => Some(EditField::MeterSerialNumber),
            9 => Some(EditField::MeterType),
            _ => None,
        }
    }

    /// The state-table name of the row this field edits.
    pub fn label(self) -> (r: &'static str)
        ensures
            r@ == field_label(self),
    {
        match self {
            EditField::EvseId => "EVSE ID",
            EditField::ConnectorId => "Connector ID",
            EditField::Phases => "Used Phases",
            EditField::Voltage => "Voltage",
            EditField::Current(0) => "Current L1",
            EditField::Current(1) => "Current L2",
            EditField::Current(_) => "Current L3",
            EditField::Power => "Power",
            EditField::Frequency => "Frequency",
            EditField::TotalEnergy => "Total Energy",
            EditField::SessionEnergy => "Session Energy",
            EditField::Soc => "State of Charge",
            EditField::Temperature => "Temperature",
            EditField::Status => "Status",
            EditField::Rfid => "RFID",
            EditField::Model => "Model",
            EditField::Vendor => "Vendor",
            EditField::FirmwareVersion => "Firmware Version",
            EditField::SerialNumber => "Serial Number",
            EditField::Iccid => "ICCID",
            EditField::Imsi => "IMSI",
            EditField::MeterSerialNumber => "Meter Serial Number",
            EditField::MeterType => "Meter Type",
        }
    }
}

/// Map an OCPP 2.x connector state-table row to the field it edits; `None` for the
/// read-only charge-limit rows and past the end.
pub fn conn_edit_field(row: usize) -> (r: Option<EditField>)
    ensures
        r == conn_row_field(row as nat),
{
    match row {
        0 => Some(EditField::EvseId),
        1 => Some(EditField::ConnectorId),
        2 => Some(EditField::Phases),
        3 => Some(EditField::Voltage),
        4 => Some(EditField::Current(0)),
        5 => Some(EditField::Current(1)),
        6 => Some(EditField::Current(2)),
        7 => Some(EditField::Power),
        8 => Some(EditField::Frequency),
        9 => Some(EditField::TotalEnergy),
        10 => Some(EditField::SessionEnergy),
        11 => Some(EditField::Soc),
        12 => Some(EditField::Temperature),
        13 => Some(EditField::Status),
        14 => Some(EditField::Rfid),
        _ => None,
    }
}

/// The per-purpose charge limits of a connector, one per charging-profile purpose.
pub struct ChargeLimits<T> {
    /// The `TxProfile` limit.
    pub limit: Option<T>,
    /// The `TxDefaultProfile` limit.
    pub default_limit: Option<T>,
    /// The `ChargingStationMaxProfile` limit.
    pub max_limit: Option<T>,
    /// The `ChargingStationExternalConstraints` limit.
    pub external_limit: Option<T>,
}

/// Clear the per-purpose charge limit a ClearChargingProfile targets: the limit of the
/// named purpose, or every limit when no purpose is given. An unknown purpose clears
/// nothing.
pub fn clear_limit_by_purpose<T>(c: &mut ChargeLimits<T>, purpose: Option<&str>)
    ensures
        final(c).limit == (if purpose is None || purpose->0@ == "TxProfile"@ {
            None
        } else {
            old(c).limit
        }),
        final(c).default_limit == (if purpose is None || purpose->0@ == "TxDefaultProfile"@ {
            None
        } else {
            old(c).default_limit
        }),
        final(c).max_limit == (if purpose is None || purpose->0@ == "ChargingStationMaxProfile"@ {
            None
        } else {
            old(c).max_limit
        }),
        final(c).external_limit == (if purpose is None || purpose->0@
            == "ChargingStationExternalConstraints"@ {
            None
        } else {
            old(c).external_limit
        }),
{
    proof {
        reveal_strlit("TxProfile");
        reveal_strlit("TxDefaultProfile");
        reveal_strlit("ChargingStationMaxProfile");
        reveal_strlit("ChargingStationExternalConstraints");
        assert("TxProfile"@.len() == 9);
        assert("TxDefaultProfile"@.len() == 16);
        assert("ChargingStationMaxProfile"@.len() == 25);
        assert("ChargingStationExternalConstraints"@.len() == 34);
    }
    match purpose {
        Some(p) => {
            if str_eq(p, "TxProfile") {
                c.limit = None;
            } else if str_eq(p, "TxDefaultProfile") {
                c.default_limit = None;
            } else if str_eq(p, "ChargingStationMaxProfile") {
                c.max_limit = None;
            } else if str_eq(p, "ChargingStationExternalConstraints") {
                c.external_limit = None;
            }
        },
        None => {
            c.limit = None;
            c.default_limit = None;
            c.max_limit = None;
            c.external_limit = None;
        },
    }
}

/// The views of a list of string slices.
pub open spec fn str_views(v: Seq<&str>) -> Seq<Seq<char>> {
    v.map_values(|s: &str| s@)
}

/// The OCPP 2.x state-driven actions: their request is built entirely from state, with
/// no dialog.
pub fn state_driven() -> (r: &'static [&'static str])
    ensures
        str_views(r@) == seq![
            "Authorize"@,
            "BootNotification"@,
            "Heartbeat"@,
            "MeterValues"@,
            "StatusNotification"@,
        ],
{
    let r: &'static [&'static str] = &[
        "Authorize",
        "BootNotification",
        "Heartbeat",
        "MeterValues",
        "StatusNotification",
    ];
    assert(str_views(r@) =~= seq![
        "Authorize"@,
        "BootNotification"@,
        "Heartbeat"@,
        "MeterValues"@,
        "StatusNotification"@,
    ]);
    r
}

/// The connector status choices of the OCPP 2.x status editor.
pub fn status_choices() -> (r: &'static [&'static str])
    ensures
        str_views(r@) == seq!["Available"@, "Occupied"@, "Reserved"@, "Unavailable"@, "Faulted"@],
{
    let r: &'static [&'static str] = &[
        "Available",
        "Occupied",
        "Reserved",
        "Unavailable",
        "Faulted",
    ];
    assert(str_views(r@) =~= seq![
        "Available"@,
        "Occupied"@,
        "Reserved"@,
        "Unavailable"@,
        "Faulted"@,
    ]);
    r
}

/// The phase choices of the used-phases editor.
pub fn phase_choices() -> (r: &'static [&'static str])
    ensures
        str_views(r@) == seq![
            "L1"@,
            "L2"@,
            "L3"@,
            "L1,L2"@,
            "L1,L3"@,
            "L2,L3"@,
            "L1,L2,L3"@,
        ],
{
    let r: &'static [&'static str] = &["L1", "L2", "L3", "L1,L2", "L1,L3", "L2,L3", "L1,L2,L3"];
    assert(str_views(r@) =~= seq![
        "L1"@,
        "L2"@,
        "L3"@,
        "L1,L2"@,
        "L1,L3"@,
        "L2,L3"@,
        "L1,L2,L3"@,
    ]);
    r
}

/// The title of the OCPP 2.x configuration table.
pub fn config_title() -> (r: &'static str)
    ensures
        r@ == "Variables"@,
{
    "Variables"
}

/// The placeholder of the OCPP 2.x add-connector input.
pub fn add_connector_placeholder() -> (r: &'static str)
    ensures
        r@ == "Add evse/connector"@,
{
    "Add evse/connector"
}

/// Whether the OCPP 2.x view offers the start/stop transaction shortcut buttons.
pub fn has_tx_shortcuts() -> (r: bool)
    ensures
        r,
{
    true
}

/// The index of the first `/` in `s` at or after `i`, or its length.
pub open spec fn first_slash(s: Seq<char>, i: int) -> int
    decreases s.len() - i,
{
    if 0 <= i < s.len() && s[i] != '/' {
        first_slash(s, i + 1)
    } else {
        i
    }
}

proof fn lemma_first_slash_bounds(s: Seq<char>, i: int)
    requires
        0 <= i <= s.len(),
    ensures
        i <= first_slash(s, i) <= s.len(),
        first_slash(s, i) < s.len() ==> s[first_slash(s, i)] == '/',
        forall|k: int| i <= k < first_slash(s, i) ==> s[k] != '/',
    decreases s.len() - i,
{
    if i < s.len() && s[i] != '/' {
        lemma_first_slash_bounds(s, i + 1);
    }
}

/// The id `parse_id` reads from `raw`, if any.
pub open spec fn id_of(raw: Seq<char>) -> Option<int> {
    parse_i64_spec(id_text(raw))
}

/// The (EVSE, connector) an add-connector input names: `evse/connector`, with an EVSE
/// that does not parse read as 1, or a bare connector on EVSE 1; `None` when the
/// connector does not parse.
pub open spec fn connector_address_spec(raw: Seq<char>) -> Option<(int, int)> {
    let j = first_slash(raw, 0);
    if j < raw.len() {
        let evse = match id_of(raw.take(j)) {
            Some(e) => e,
            None => 1,
        };
        match id_of(raw.skip(j + 1)) {
            Some(c) => Some((evse, c)),
            None => None,
        }
    } else {
        match id_of(raw) {
            Some(c) => Some((1, c)),
            None => None,
        }
    }
}

/// Read the (EVSE, connector) an OCPP 2.x add-connector input names (`2/3`, `7`).
pub fn connector_address(raw: &str) -> (r: Option<(i64, i64)>)
    ensures
        r is Some == connector_address_spec(raw@) is Some,
        r matches Some(p) ==> connector_address_spec(raw@) == Some((p.0 as int, p.1 as int)),
{
    let n = raw.unicode_len();
    let mut j: usize = 0;
    while j < n && raw.get_char(j) != '/'
        invariant
            n == raw@.len(),
            j <= n,
            first_slash(raw@, 0) == first_slash(raw@, j as int),
        decreases n - j,
    {
        j = j + 1;
    }
    proof {
        lemma_first_slash_bounds(raw@, j as int);
    }
    if j < n {
        let head = raw.substring_char(0, j);
        let tail = raw.substring_char(j + 1, n);
        assert(head@ =~= raw@.take(j as int));
        assert(tail@ =~= raw@.skip(j + 1));
        let evse = match parse_id(head) {
            Some(e) => e,
            None => 1,
        };
        match parse_id(tail) {
            Some(c) => Some((evse, c)),
            None => None,
        }
    } else {
        match parse_id(raw) {
            Some(c) => Some((1, c)),
            None => None,
        }
    }
}
proof fn lemma_digit_not_special(c: char)
    requires
        is_digit(c),
    ensures
        !is_ws(c),
        !is_id_label(c),
        c != '/',
{
    assert('e' as u32 == 101 && 'c' as u32 == 99 && 'E' as u32 == 69 && 'C' as u32 == 67);
    assert('/' as u32 == 47);
}

/// An id reads the number written in decimal, bare or after one `e`/`c` label in either
/// case (`7`, `e7`, `C7`).
pub proof fn lemma_parse_id_reads_decimal(n: nat, label: char)
    requires
        n <= i64::MAX,
        is_id_label(label),
    ensures
        id_of(dec(n)) == Some(n as int),
        id_of(seq![label] + dec(n)) == Some(n as int),
{
    lemma_dec_digits(n);
    lemma_dec_len(n);
    lemma_parse_reads_decimal(n);
    let d = dec(n);
    lemma_digit_not_special(d[0]);
    lemma_digit_not_special(d[d.len() - 1]);
    lemma_trim_unchanged(d);
    assert(skip_id_labels(d, 0) == 0);
    assert(d.skip(0) =~= d);
    let l = seq![label] + d;
    assert(!is_ws(label)) by {
        assert('e' as u32 == 101 && 'c' as u32 == 99 && 'E' as u32 == 69 && 'C' as u32 == 67);
    }
    assert(l[l.len() - 1] == d[d.len() - 1]);
    lemma_trim_unchanged(l);
    assert(l[1] == d[0]);
    assert(skip_id_labels(l, 1) == 1);
    assert(skip_id_labels(l, 0) == 1);
    assert(l.skip(1) =~= d);
}

/// An add-connector input `evse/connector` written in decimal names that pair, and a bare
/// connector lies on EVSE 1.
pub proof fn lemma_connector_address_reads_pair(e: nat, c: nat)
    requires
        e <= i64::MAX,
        c <= i64::MAX,
    ensures
        connector_address_spec(dec(e) + seq!['/'] + dec(c)) == Some((e as int, c as int)),
        connector_address_spec(dec(c)) == Some((1int, c as int)),
{
    lemma_parse_id_reads_decimal(e, 'e');
    lemma_parse_id_reads_decimal(c, 'e');
    lemma_dec_digits(e);
    lemma_dec_digits(c);
    let de = dec(e);
    let dc = dec(c);
    let raw = de + seq!['/'] + dc;
    lemma_first_slash_bounds(raw, 0);
    assert forall|k: int| 0 <= k < de.len() implies raw[k] != '/' by {
        assert(raw[k] == de[k]);
        lemma_digit_not_special(de[k]);
    }
    assert(raw[de.len() as int] == '/');
    assert(first_slash(raw, 0) == de.len()) by {
        let j = first_slash(raw, 0);
        if j < de.len() {
            assert(raw[j] == '/');
        }
    }
    assert(raw.take(de.len() as int) =~= de);
    assert(raw.skip(de.len() as int + 1) =~= dc);
    lemma_first_slash_bounds(dc, 0);
    assert(first_slash(dc, 0) == dc.len()) by {
        let j = first_slash(dc, 0);
        if j < dc.len() {
            lemma_digit_not_special(dc[j]);
        }
    }
}

} // verus!
