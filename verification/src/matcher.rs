//! Resolving detected displays against the priority-ordered configuration:
//! the first entry whose identifier matches a display wins. Because the
//! configuration is sorted ascending by specificity rank, the scan order is
//! the priority order.

use crate::config::{Config, MonitorConfig, MonitorId};
use vstd::prelude::*;

verus! {

/// A display as reported by the display-enumeration collaborator: its
/// physical bus and its identification strings.
#[derive(Debug)]
pub struct DetectedDisplay {
    pub bus: u32,
    pub manufacturer: String,
    pub model: String,
    pub serial: String,
}

/// Whether a configuration rule's identifier applies to a display.
pub open spec fn id_matches_spec(id: MonitorId, d: DetectedDisplay) -> bool {
    match id {
        MonitorId::Default => true,
        MonitorId::I2cBus(bus) => d.bus == bus,
        MonitorId::Model(manufacturer, model) => d.manufacturer@ == manufacturer@ && d.model@
            == model@,
        MonitorId::Serial(serial) => d.serial@ == serial@,
        MonitorId::ModelSerial(manufacturer, model, serial) => d.manufacturer@ == manufacturer@
            && d.model@ == model@ && d.serial@ == serial@,
    }
}

/// Whether a configuration rule's identifier applies to a display. String
/// fields compare exactly (case-sensitive); `Default` matches every display.
pub fn id_matches(id: &MonitorId, d: &DetectedDisplay) -> (r: bool)
    ensures
        r == id_matches_spec(*id, *d),
{
    match id {
        MonitorId::Default => true,
        MonitorId::I2cBus(bus) => d.bus == *bus,
        MonitorId::Model(manufacturer, model) => d.manufacturer == *manufacturer && d.model
            == *model,
        MonitorId::Serial(serial) => d.serial == *serial,
        MonitorId::ModelSerial(manufacturer, model, serial) => d.manufacturer == *manufacturer
            && d.model == *model && d.serial == *serial,
    }
}

/// `r` is the first entry of `monitors` that matches `d`, or `None` when no
/// entry does.
pub open spec fn is_first_match(
    monitors: Seq<MonitorConfig>,
    d: DetectedDisplay,
    r: Option<usize>,
) -> bool {
    match r {
        Some(j) => 0 <= j < monitors.len() && id_matches_spec(monitors[j as int].identifier, d)
            && forall|k: int| 0 <= k < j ==> !id_matches_spec(
            (#[trigger] monitors[k]).identifier,
            d,
        ),
        None => forall|k: int| 0 <= k < monitors.len() ==> !id_matches_spec(
            (#[trigger] monitors[k]).identifier,
            d,
        ),
    }
}

/// The index of the first configuration entry that applies to the display, by
/// scan order. With the configuration sorted by specificity rank this is the
/// most specific applicable rule.
pub fn find_config_index(config: &Config, d: &DetectedDisplay) -> (r: Option<usize>)
    ensures
        is_first_match(config.monitors@, *d, r),
{
    let n = config.monitors.len();
    let mut j: usize = 0;
    while j < n
        invariant
            n == config.monitors@.len(),
            j <= n,
            forall|k: int| 0 <= k < j ==> !id_matches_spec(
                (#[trigger] config.monitors@[k]).identifier,
                *d,
            ),
        decreases n - j,
    {
        if id_matches(&config.monitors[j].identifier, d) {
            return Some(j);
        }
        j += 1;
    }
    None
}

/// For each detected display, the index of the first configuration entry that
/// applies to it, or `None` for displays no entry matches (such displays are
/// dropped, which is not an error).
pub fn match_displays_to_config(displays: &Vec<DetectedDisplay>, config: &Config) -> (r: Vec<
    Option<usize>,
>)
    ensures
        r@.len() == displays@.len(),
        forall|i: int| 0 <= i < displays@.len() ==> is_first_match(
            config.monitors@,
            displays@[i],
            #[trigger] r@[i],
        ),
{
    let mut out: Vec<Option<usize>> = Vec::new();
    let n = displays.len();
    let mut i: usize = 0;
    while i < n
        invariant
            n == displays@.len(),
            i <= n,
            out@.len() == i,
            forall|k: int| 0 <= k < i ==> is_first_match(
                config.monitors@,
                displays@[k],
                #[trigger] out@[k],
            ),
        decreases n - i,
    {
        out.push(find_config_index(config, &displays[i]));
        i += 1;
    }
    out
}

} // verus!
