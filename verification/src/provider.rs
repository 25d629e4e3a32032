//! The provider facade: exactly one of the two stores, selected once at
//! startup, behind a single query operation.

use vstd::prelude::*;

use crate::errors::{ApiError, BuildError};
use crate::herrbischoff::{
    build_blocks_spec, scan_spec, BlockV, HerrbischoffProvider, SourceFile,
};
use crate::ip2location::{build_ranges_spec, lookup_spec, Ip2locationProvider, RangeV};

verus! {

/// The two-variant dispatcher holding the one store built at startup.
#[derive(Debug)]
pub enum IpgeoProvider {
    Herrbischoff(HerrbischoffProvider),
    Ip2location(Ip2locationProvider),
}

/// What a query on the facade denotes: whatever the active backend's
/// query denotes, forwarded unchanged.
pub open spec fn provider_lookup(p: IpgeoProvider, ip: u32) -> Option<Seq<char>> {
    match p {
        IpgeoProvider::Herrbischoff(h) => scan_spec(h@, ip),
        IpgeoProvider::Ip2location(s) => lookup_spec(s@, ip),
    }
}

impl IpgeoProvider {
    /// Selects and builds the one configured backend. Supplying no source
    /// or both sources is a configuration error; a supplied source's own
    /// construction failure is forwarded unchanged.
    pub fn from_sources(
        repo_files: Option<&Vec<SourceFile>>,
        db_lines: Option<&Vec<String>>,
    ) -> (r: Result<IpgeoProvider, BuildError>)
        ensures
            match (repo_files, db_lines) {
                (Some(files), None) => match r {
                    Ok(p) => p matches IpgeoProvider::Herrbischoff(h) && build_blocks_spec(
                        files.deep_view(),
                    ) == Ok::<Seq<BlockV>, BuildError>(h@),
                    Err(e) => build_blocks_spec(files.deep_view()) == Err::<
                        Seq<BlockV>,
                        BuildError,
                    >(e),
                },
                (None, Some(lines)) => match r {
                    Ok(p) => p matches IpgeoProvider::Ip2location(s) && build_ranges_spec(
                        lines.deep_view(),
                    ) == Ok::<Seq<RangeV>, BuildError>(s@),
                    Err(e) => build_ranges_spec(lines.deep_view()) == Err::<
                        Seq<RangeV>,
                        BuildError,
                    >(e),
                },
                _ => r matches Err(e) && e == BuildError::Configuration,
            },
    {
        match (repo_files, db_lines) {
            (Some(files), None) => match HerrbischoffProvider::from_repo(files) {
                Ok(p) => Ok(IpgeoProvider::Herrbischoff(p)),
                Err(e) => Err(e),
            },
            (None, Some(lines)) => match Ip2locationProvider::from_db(lines) {
                Ok(p) => Ok(IpgeoProvider::Ip2location(p)),
                Err(e) => Err(e),
            },
            _ => Err(BuildError::Configuration),
        }
    }

    /// Answers a point query through whichever backend is active,
    /// forwarding its outcome unchanged.
    pub fn get_ipv4_country(&self, ip_address: u32) -> (r: Option<String>)
        ensures
            r.deep_view() == provider_lookup(*self, ip_address),
    {
        match self {
            IpgeoProvider::Herrbischoff(p) => p.get_ipv4_country(ip_address),
            IpgeoProvider::Ip2location(p) => p.get_ipv4_country(ip_address),
        }
    }

    /// Resolves a syntactically valid address value to a country code, or
    /// reports that no loaded range or block contains it.
    pub fn resolve(&self, ip_address: u32) -> (r: Result<String, ApiError>)
        ensures
            match r {
                Ok(c) => provider_lookup(*self, ip_address) == Some(c@),
                Err(e) => e == ApiError::IpAddressNotFound && provider_lookup(*self, ip_address)
                    is None,
            },
    {
        match self.get_ipv4_country(ip_address) {
            Some(c) => Ok(c),
            None => Err(ApiError::IpAddressNotFound),
        }
    }
}

} // verus!
