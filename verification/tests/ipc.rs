//! The literals and the shapes of what crosses to the user interface.

use portside::domain::model::{Kind, Project, ProjectAttribution};
use portside::ipc::{
    guessed_project_name, wire_ports, wire_section_for, HealthWire, OtherKind, Port, PortFamily, PortReachability,
    PressureWire, ResourceUsageWire, StopResult, WatchOnlyReason, WireSection,
};
use portside::platform::{AddressFamily, PortBinding, Reachability, ResourceSample};
use portside::scanner::Pressure;

fn json(literal: &str) -> String {
    serde_json::to_string(literal).unwrap()
}

#[test]
fn wire_enums_serialize_to_the_literals_ipc_md_specifies() {
    assert_eq!(json(PortFamily::V4.wire()), "\"v4\"");
    assert_eq!(json(PortFamily::V6.wire()), "\"v6\"");
    assert_eq!(json(PortReachability::Localhost.wire()), "\"localhost\"");
    assert_eq!(json(PortReachability::AllInterfaces.wire()), "\"all_interfaces\"");
    assert_eq!(json(HealthWire::Responding.wire()), "\"responding\"");
    assert_eq!(json(HealthWire::NotResponding.wire()), "\"not_responding\"");
    assert_eq!(json(HealthWire::Unknown.wire()), "\"unknown\"");
    assert_eq!(json(WatchOnlyReason::YourOwnTool.wire()), "\"your_own_tool\"");
    assert_eq!(json(WatchOnlyReason::PartOfMacos.wire()), "\"part_of_macos\"");
    assert_eq!(json(OtherKind::PartOfApp.wire()), "\"part_of_app\"");
    assert_eq!(json(OtherKind::BackgroundService.wire()), "\"background_service\"");
    assert_eq!(json(StopResult::Stopped.wire()), "\"stopped\"");
    assert_eq!(json(StopResult::StillRunning.wire()), "\"still_running\"");
    assert_eq!(json(StopResult::Refused.wire()), "\"refused\"");
    assert_eq!(json(PressureWire::Normal.wire()), "\"normal\"");
    assert_eq!(json(PressureWire::Cpu.wire()), "\"cpu\"");
    assert_eq!(json(PressureWire::Memory.wire()), "\"memory\"");
    assert_eq!(json(PressureWire::Both.wire()), "\"both\"");
}

#[test]
fn a_usage_carries_its_sample_and_its_pressure() {
    let usage = ResourceUsageWire::new(
        &ResourceSample { cpu_tenths_percent: Some(825), memory_bytes: Some(1_073_741_824) },
        Pressure::Both,
    );
    assert_eq!(usage.cpu_tenths_percent, Some(825));
    assert_eq!(usage.memory_bytes, Some(1_073_741_824));
    assert_eq!(usage.pressure, PressureWire::Both);
    let pressures = [
        (Pressure::Normal, PressureWire::Normal),
        (Pressure::Cpu, PressureWire::Cpu),
        (Pressure::Memory, PressureWire::Memory),
    ];
    for (pressure, wire) in pressures {
        assert_eq!(ResourceUsageWire::new(&ResourceSample::default(), pressure).pressure, wire);
    }
}

#[test]
fn every_kind_has_its_section() {
    assert_eq!(wire_section_for(Kind::DevServer), WireSection::Project);
    assert_eq!(wire_section_for(Kind::YourOwnTool), WireSection::WatchOnly(WatchOnlyReason::YourOwnTool));
    assert_eq!(wire_section_for(Kind::PartOfMacOS), WireSection::WatchOnly(WatchOnlyReason::PartOfMacos));
    assert_eq!(wire_section_for(Kind::PartOfApp), WireSection::Other(OtherKind::PartOfApp));
    assert_eq!(wire_section_for(Kind::BackgroundService), WireSection::Other(OtherKind::BackgroundService));
}

/// Only a guess is a guess.
#[test]
fn a_known_project_is_no_guess() {
    let project = || Project { root: "/p".to_string(), name: "p".to_string() };
    assert_eq!(guessed_project_name(&ProjectAttribution::Guessed(project(), None)), Some("p".to_string()));
    assert_eq!(guessed_project_name(&ProjectAttribution::Known(project(), None)), None);
    assert_eq!(guessed_project_name(&ProjectAttribution::NoProject), None);
}

#[test]
fn ports_keep_their_order_on_the_wire() {
    let bindings = vec![
        PortBinding { port: 80, family: AddressFamily::V6, reachability: Reachability::AllInterfaces },
        PortBinding { port: 79, family: AddressFamily::V4, reachability: Reachability::LocalhostOnly },
    ];
    let ports = wire_ports(&bindings);
    assert_eq!(
        ports,
        vec![
            Port { number: 80, family: PortFamily::V6, reachability: PortReachability::AllInterfaces },
            Port { number: 79, family: PortFamily::V4, reachability: PortReachability::Localhost },
        ]
    );
    assert_eq!(ports[1], Port::from(&bindings[1]));
}
