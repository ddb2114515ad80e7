use std::collections::{BTreeMap, BTreeSet};

use omnius_generator::modules::CatalogError;
use omnius_generator::requirements::{
    ApplicationRequirement, ApplicationRequirementProviderFamily,
};

#[test]
fn application_requirement_ids_are_unique_and_round_trip_strictly() -> Result<(), CatalogError> {
    let all = ApplicationRequirement::all();
    let ids = all.iter().map(ApplicationRequirement::as_str).collect::<BTreeSet<_>>();
    assert_eq!(ids.len(), all.len());
    for requirement in &all {
        assert_eq!(requirement.as_str().parse::<ApplicationRequirement>()?, *requirement);
    }
    assert!("Auth.Authenticated-Runtime".parse::<ApplicationRequirement>().is_err());
    Ok(())
}

#[test]
fn every_requirement_has_exactly_one_provider_family() {
    let all = ApplicationRequirement::all();
    let mappings = all
        .iter()
        .map(|requirement| (*requirement, requirement.provider_family()))
        .collect::<BTreeMap<_, _>>();
    assert_eq!(mappings.len(), all.len());
    let mapped_families = mappings.into_values().collect::<BTreeSet<_>>();
    let provider_families =
        ApplicationRequirementProviderFamily::all().into_iter().collect::<BTreeSet<_>>();
    assert_eq!(mapped_families, provider_families);
}

#[test]
fn an_unknown_requirement_is_named_in_its_diagnostic() {
    let error = ApplicationRequirement::parse("no.such-requirement").expect_err("unknown id");
    assert_eq!(error.message(), "unknown application requirement `no.such-requirement`");
}
