//! How the service's name appears in its metrics: as a prefix of every metric
//! name, or as a label of every series.

use vstd::prelude::*;

verus! {

/// How the service name is applied to metrics.
#[derive(Clone, Debug, PartialEq, Eq)]
pub enum ServiceNameFormat {
    /// As a prefix of the metric names.
    MetricPrefix,
    /// As a label with the given name.
    LabelWithName(String),
}

/// The service name, ready to be applied to metrics.
#[derive(Clone, Debug, PartialEq, Eq)]
pub enum MetricsServiceName {
    /// A prefix of the metric names.
    Prefix(String),
    /// A label: its name, then its value.
    Label(String, String),
}

impl MetricsServiceName {
    /// The service name `name` applied in the given format.
    pub fn new(name: &str, format: ServiceNameFormat) -> (r: Self)
        ensures
            match format {
                ServiceNameFormat::MetricPrefix => r matches MetricsServiceName::Prefix(p) && p@
                    == name@,
                ServiceNameFormat::LabelWithName(label) => r matches MetricsServiceName::Label(
                    l,
                    v,
                ) && l@ == label@ && v@ == name@,
            },
    {
        let name = name.to_owned();
        match format {
            ServiceNameFormat::MetricPrefix => MetricsServiceName::Prefix(name),
            ServiceNameFormat::LabelWithName(label) => MetricsServiceName::Label(label, name),
        }
    }
}

/// The prefix of the metrics of a subsystem: the service name, `_` and the
/// subsystem's name when the service name is a prefix and the subsystem asks
/// for it; the subsystem's name otherwise.
pub fn subsystem_prefix(
    service: &MetricsServiceName,
    subsystem: &str,
    with_service_prefix: bool,
) -> (r: String)
    ensures
        r@ == match service {
            MetricsServiceName::Prefix(p) => if with_service_prefix {
                p@ + "_"@ + subsystem@
            } else {
                subsystem@
            },
            MetricsServiceName::Label(_, _) => subsystem@,
        },
{
    match service {
        MetricsServiceName::Prefix(p) => {
            if with_service_prefix {
                let mut r = p.clone();
                r.append("_");
                r.append(subsystem);
                r
            } else {
                subsystem.to_owned()
            }
        },
        MetricsServiceName::Label(_, _) => subsystem.to_owned(),
    }
}

/// The label that every series of a subsystem carries, as name and value:
/// the service's, when its name is a label.
pub fn subsystem_label(service: &MetricsServiceName) -> (r: Option<(String, String)>)
    ensures
        match service {
            MetricsServiceName::Prefix(_) => r is None,
            MetricsServiceName::Label(l, v) => r matches Some(lv) && lv.0@ == l@ && lv.1@ == v@,
        },
{
    match service {
        MetricsServiceName::Prefix(_) => None,
        MetricsServiceName::Label(l, v) => Some((l.clone(), v.clone())),
    }
}

/// The service name to apply when collecting metrics: the one set at
/// initialization, or `undefined` before it.
pub fn service_name(initialized: &Option<String>) -> (r: String)
    ensures
        r@ == match initialized {
            Some(n) => n@,
            None => "undefined"@,
        },
{
    match initialized {
        Some(n) => n.clone(),
        None => "undefined".to_owned(),
    }
}

} // verus!
