//! What a `.SRCINFO` file says about a package base.
use vstd::prelude::*;

use crate::text;

verus! {

/// A package in a `.SRCINFO`.
pub struct SrcPackage {
    pub pkgname: String,
    pub arch: Vec<String>,
}

#[verifier::ext_equal]
pub struct SrcPackageView {
    pub pkgname: Seq<char>,
    pub arch: Seq<Seq<char>>,
}

impl View for SrcPackage {
    type V = SrcPackageView;

    open spec fn view(&self) -> SrcPackageView {
        SrcPackageView { pkgname: self.pkgname@, arch: text::views(self.arch@) }
    }
}

/// The sources for an architecture, or for all where none is given.
pub struct Sources {
    pub arch: Option<String>,
    pub vec: Vec<String>,
}

#[verifier::ext_equal]
pub struct SourcesView {
    pub arch: Option<Seq<char>>,
    pub vec: Seq<Seq<char>>,
}

impl View for Sources {
    type V = SourcesView;

    open spec fn view(&self) -> SourcesView {
        SourcesView { arch: text::option_view(self.arch), vec: text::views(self.vec@) }
    }
}

/// What is read out of a `.SRCINFO`.
pub struct SrcInfo {
    pub pkgbase: String,
    pub epoch: Option<String>,
    pub pkgver: String,
    pub pkgrel: String,
    pub source: Vec<Sources>,
    /// The keys that the sources may be signed with.
    pub valid_pgp_keys: Vec<String>,
    pub pkgs: Vec<SrcPackage>,
}

#[verifier::ext_equal]
pub struct SrcInfoView {
    pub pkgbase: Seq<char>,
    pub epoch: Option<Seq<char>>,
    pub pkgver: Seq<char>,
    pub pkgrel: Seq<char>,
    pub source: Seq<SourcesView>,
    pub valid_pgp_keys: Seq<Seq<char>>,
    pub pkgs: Seq<SrcPackageView>,
}

impl View for SrcInfo {
    type V = SrcInfoView;

    open spec fn view(&self) -> SrcInfoView {
        SrcInfoView {
            pkgbase: self.pkgbase@,
            epoch: text::option_view(self.epoch),
            pkgver: self.pkgver@,
            pkgrel: self.pkgrel@,
            source: text::views(self.source@),
            valid_pgp_keys: text::views(self.valid_pgp_keys@),
            pkgs: text::views(self.pkgs@),
        }
    }
}

impl SrcPackageView {
    /// Whether the package can be built neither for every architecture nor for this one.
    pub open spec fn incompatible(self, arch: Seq<char>) -> bool {
        !self.arch.contains("any"@) && !self.arch.contains(arch)
    }
}

impl SrcInfoView {
    /// The full version: epoch, where there is one, version and release.
    pub open spec fn version(self) -> Seq<char> {
        match self.epoch {
            Some(epoch) => epoch + ":"@ + self.pkgver + "-"@ + self.pkgrel,
            None => self.pkgver + "-"@ + self.pkgrel,
        }
    }

    /// The names of the packages that cannot be built for an architecture.
    pub open spec fn incompatible(self, arch: Seq<char>) -> Seq<Seq<char>> {
        self.pkgs.filter(|pkg: SrcPackageView| pkg.incompatible(arch)).map_values(
            |pkg: SrcPackageView| pkg.pkgname,
        )
    }
}

impl SrcInfo {
    /// Writes the full version.
    pub fn version(&self) -> (r: String)
        ensures
            r@ == self@.version(),
    {
        let mut out = String::new();
        if let Some(epoch) = &self.epoch {
            out.append(epoch.as_str());
            out.append(":");
        }
        out.append(self.pkgver.as_str());
        out.append("-");
        out.append(self.pkgrel.as_str());
        assert(out@ =~= self@.version());
        out
    }

    /// Lists the packages that cannot be built for an architecture.
    pub fn incompatible(&self, arch: &str) -> (r: Vec<String>)
        ensures
            text::views(r@) == self@.incompatible(arch@),
    {
        let mut out: Vec<String> = Vec::new();
        let ghost all = self@.pkgs;
        let ghost test = |pkg: SrcPackageView| pkg.incompatible(arch@);
        let ghost name = |pkg: SrcPackageView| pkg.pkgname;
        proof {
            reveal(Seq::filter);
        }
        assert(all.take(0) =~= Seq::<SrcPackageView>::empty());
        assert(text::views(out@) =~= all.take(0).filter(test).map_values(name));
        for i in 0..self.pkgs.len()
            invariant
                all == self@.pkgs,
                test == (|pkg: SrcPackageView| pkg.incompatible(arch@)),
                name == (|pkg: SrcPackageView| pkg.pkgname),
                text::views(out@) == all.take(i as int).filter(test).map_values(name),
        {
            let pkg = &self.pkgs[i];
            proof {
                text::lemma_take_push(all, i as int);
                text::lemma_filter_push(all.take(i as int), all[i as int], test);
            }
            if !text::contains(&pkg.arch, "any") && !text::contains(&pkg.arch, arch) {
                let ghost before = all.take(i as int).filter(test);
                let pkgname = pkg.pkgname.clone();
                proof {
                    text::lemma_views_push(out@, pkgname);
                    assert(before.push(pkg@).map_values(name) =~= before.map_values(name).push(
                        pkgname@,
                    ));
                }
                out.push(pkgname);
            }
        }
        assert(all.take(self.pkgs@.len() as int) =~= all);
        out
    }
}

/// What the `srcinfo` crate reads out of the bytes of a file, or the message of its
/// error.
pub uninterp spec fn srcinfo_of(file: Seq<u8>) -> Result<SrcInfoView, Seq<char>>;

/// `srcinfo`'s `Srcinfo::parse_buf`: what the `.SRCINFO` in a file's bytes says of the
/// base, its version, its sources and their keys, and its packages, or the message of the
/// error. Which file says what is not stated.
#[verifier::external_body]
pub(crate) fn parse(file: &Vec<u8>) -> (r: Result<SrcInfo, String>)
    ensures
        match r {
            Ok(info) => srcinfo_of(file@) == Ok::<SrcInfoView, Seq<char>>(info@),
            Err(cause) => srcinfo_of(file@) == Err::<SrcInfoView, Seq<char>>(cause@),
        },
{
    match srcinfo::Srcinfo::parse_buf(file.as_slice()) {
        Ok(info) => Ok(SrcInfo {
            pkgbase: info.base.pkgbase,
            epoch: info.base.epoch,
            pkgver: info.base.pkgver,
            pkgrel: info.base.pkgrel,
            source: info.base.source.into_iter()
                .map(|s| Sources { arch: s.arch, vec: s.vec })
                .collect(),
            valid_pgp_keys: info.base.valid_pgp_keys,
            pkgs: info.pkgs.into_iter()
                .map(|p| SrcPackage { pkgname: p.pkgname, arch: p.arch }).collect(),
        }),
        Err(error) => Err(error.to_string()),
    }
}

/// The version that a `.SRCINFO` gives is `version-release`, with the epoch and a colon in
/// front exactly where there is an epoch.
pub proof fn law_version(info: SrcInfoView, epoch: Seq<char>)
    ensures
        (SrcInfoView { epoch: None, ..info }).version() == info.pkgver + "-"@ + info.pkgrel,
        (SrcInfoView { epoch: Some(epoch), ..info }).version() == epoch + ":"@ + (SrcInfoView {
            epoch: None,
            ..info
        }).version(),
{
    assert((SrcInfoView { epoch: Some(epoch), ..info }).version() =~= epoch + ":"@ + (SrcInfoView {
        epoch: None,
        ..info
    }).version());
}

/// A package cannot be built for an architecture exactly where it is made for neither every
/// architecture nor that one.
pub proof fn law_incompatible(info: SrcInfoView, arch: Seq<char>, name: Seq<char>)
    ensures
        info.incompatible(arch).contains(name) <==> exists|i: int|
            0 <= i < info.pkgs.len() && (#[trigger] info.pkgs[i]).pkgname == name
                && !info.pkgs[i].arch.contains("any"@) && !info.pkgs[i].arch.contains(arch),
{
    let test = |pkg: SrcPackageView| pkg.incompatible(arch);
    let called = |pkg: SrcPackageView| pkg.pkgname;
    text::lemma_filter_mapped(info.pkgs, test, called, name);
    if info.incompatible(arch).contains(name) {
        let i = choose|i: int|
            0 <= i < info.pkgs.len() && test(#[trigger] info.pkgs[i]) && called(info.pkgs[i])
                == name;
        assert(info.pkgs[i].pkgname == name);
    }
    if exists|i: int|
        0 <= i < info.pkgs.len() && (#[trigger] info.pkgs[i]).pkgname == name
            && !info.pkgs[i].arch.contains("any"@) && !info.pkgs[i].arch.contains(arch) {
        let i = choose|i: int|
            0 <= i < info.pkgs.len() && (#[trigger] info.pkgs[i]).pkgname == name
                && !info.pkgs[i].arch.contains("any"@) && !info.pkgs[i].arch.contains(arch);
        assert(test(info.pkgs[i]) && called(info.pkgs[i]) == name);
    }
}

} // verus!
