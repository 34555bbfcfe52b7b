//! The component catalog and its compatibility partition.

use vstd::prelude::*;

use crate::cross_platform::MaybeCrossPlatform;
use crate::platform::Platform;
use crate::procedure::CompileError;
use crate::procedure::InstallStep;
use crate::procedure::Procedure;
use crate::procedure::compiled_step;
use crate::procedure::opt_version;
use crate::select::Selectable;
use crate::select::SelectableHashMap;
use crate::select::distinct_keys;
use crate::version::Version;
use crate::version::VersionResolvable;

verus! {

/// One installable component as the catalog declares it.
pub struct Component {
    pub display_name: String,
    pub version: VersionResolvable,
    pub platforms: Vec<Platform>,
    pub procedure: Vec<Procedure>,
    pub dependencies: Option<MaybeCrossPlatform<Vec<String>>>,
}

/// Why a component cannot be used on the current machine.
pub enum IncompatibilityReason {
    /// The component's platform list does not name this platform.
    PlatformNotSupported(Platform),
}

/// A component that cannot be used on the current machine, with the reason.
pub struct IncompatibleComponent {
    pub display_name: String,
    pub reason: IncompatibilityReason,
    pub version: VersionResolvable,
    pub platforms: Vec<Platform>,
}

impl IncompatibleComponent {
    /// Bundles the descriptive fields of a component with the reason it is
    /// unusable.
    pub fn new(
        display_name: String,
        reason: IncompatibilityReason,
        version: VersionResolvable,
        platforms: Vec<Platform>,
    ) -> (r: IncompatibleComponent)
        ensures
            r == (IncompatibleComponent { display_name, reason, version, platforms }),
    {
        IncompatibleComponent { display_name, reason, version, platforms }
    }

    /// The reason this component is unusable.
    pub fn reason(&self) -> (r: &IncompatibilityReason)
        ensures
            *r == self.reason,
    {
        &self.reason
    }

    /// The component's version source.
    pub fn version(&self) -> (r: &VersionResolvable)
        ensures
            *r == self.version,
    {
        &self.version
    }

    /// The component's display name.
    pub fn display_name(&self) -> (r: &String)
        ensures
            *r == self.display_name,
    {
        &self.display_name
    }

    /// The platforms the component declares support for.
    pub fn platforms(&self) -> (r: &Vec<Platform>)
        ensures
            *r == self.platforms,
    {
        &self.platforms
    }
}

/// The incompatible twin of a component on platform `p`.
pub open spec fn incompat_of(c: Component, p: Platform) -> IncompatibleComponent {
    IncompatibleComponent {
        display_name: c.display_name,
        reason: IncompatibilityReason::PlatformNotSupported(p),
        version: c.version,
        platforms: c.platforms,
    }
}

impl Component {
    /// Whether the declared platform list names `p`.
    pub open spec fn supports(self, p: Platform) -> bool {
        exists|i: int| 0 <= i < self.platforms@.len() && self.platforms@[i]@ == p@
    }

    /// Scans the declared platform list for `p`.
    pub fn supports_platform(&self, p: &Platform) -> (r: bool)
        ensures
            r == self.supports(*p),
    {
        let mut i: usize = 0;
        while i < self.platforms.len()
            invariant
                0 <= i <= self.platforms@.len(),
                forall|j: int| 0 <= j < i ==> self.platforms@[j]@ != p@,
            decreases self.platforms@.len() - i,
        {
            if self.platforms[i] == *p {
                return true;
            }
            i = i + 1;
        }
        false
    }

    /// Turns the component into its incompatible form, keeping the
    /// descriptive fields and recording the reason.
    pub fn incompatible_because(self, reason: IncompatibilityReason) -> (r: IncompatibleComponent)
        ensures
            r.display_name == self.display_name,
            r.reason == reason,
            r.version == self.version,
            r.platforms == self.platforms,
    {
        IncompatibleComponent::new(self.display_name, reason, self.version, self.platforms)
    }

    /// The component's version source.
    pub fn version(&self) -> (r: &VersionResolvable)
        ensures
            *r == self.version,
    {
        &self.version
    }

    /// The component's display name.
    pub fn display_name(&self) -> (r: &String)
        ensures
            *r == self.display_name,
    {
        &self.display_name
    }

    /// The platforms the component declares support for.
    pub fn platforms(&self) -> (r: &Vec<Platform>)
        ensures
            *r == self.platforms,
    {
        &self.platforms
    }

    /// Compiles every declared procedure step for the given resolved
    /// version and platform, step by step: one bad step yields its own
    /// error and leaves every other step's result intact.
    pub fn compile(&self, version: Option<&Version>, current: &Platform) -> (r: Vec<
        Result<Option<InstallStep>, CompileError>,
    >)
        ensures
            r@.len() == self.procedure@.len(),
            forall|i: int|
                0 <= i < r@.len() ==> compiled_step(
                    self.procedure@[i],
                    opt_version(version),
                    current@,
                    r@[i],
                ),
    {
        let mut out: Vec<Result<Option<InstallStep>, CompileError>> = Vec::new();
        let mut i: usize = 0;
        while i < self.procedure.len()
            invariant
                0 <= i <= self.procedure@.len(),
                out@.len() == i,
                forall|j: int|
                    0 <= j < i ==> compiled_step(
                        self.procedure@[j],
                        opt_version(version),
                        current@,
                        out@[j],
                    ),
            decreases self.procedure@.len() - i,
        {
            let step = self.procedure[i].compile(version, current);
            out.push(step);
            i = i + 1;
        }
        out
    }
}

impl Selectable for Component {
    open spec fn spec_dependencies(&self, p: Platform) -> Option<Seq<Seq<char>>> {
        match self.dependencies {
            None => None,
            Some(m) => match m.spec_get(p@) {
                None => None,
                Some(d) => Some(d@.map_values(|s: String| s@)),
            },
        }
    }

    fn dependencies(&self, p: &Platform) -> (r: Option<&Vec<String>>) {
        match &self.dependencies {
            None => None,
            Some(m) => m.get(p),
        }
    }
}

/// The catalog as the catalog file declares it: components by key.
pub struct AvailableComponentsFile {
    pub components: Vec<(String, Component)>,
}

/// The catalog split by compatibility with the current platform.
pub struct Components {
    pub compatible: Vec<(String, Component)>,
    pub incompatible: Vec<(String, IncompatibleComponent)>,
}

impl Components {
    /// The components usable on the current platform.
    pub fn compatible(&self) -> (r: &Vec<(String, Component)>)
        ensures
            *r == self.compatible,
    {
        &self.compatible
    }

    /// The components unusable on the current platform, with reasons.
    pub fn incompatible(&self) -> (r: &Vec<(String, IncompatibleComponent)>)
        ensures
            *r == self.incompatible,
    {
        &self.incompatible
    }

    /// Moves the compatible partition into a selection engine for the given
    /// platform.
    pub fn into_selectable_hashmap(self, current: Platform) -> (r: SelectableHashMap<Component>)
        requires
            distinct_keys(self.compatible@),
        ensures
            r.wf(),
            r.spec_items() == self.compatible@,
            r.spec_selected() == Seq::<Seq<char>>::empty(),
            r.spec_current() == current,
    {
        SelectableHashMap::new(self.compatible, current)
    }

    /// Law and constructor in one: every catalog entry whose platform list
    /// names `current` lands in the compatible partition, and every other
    /// entry lands in the incompatible partition tagged with exactly
    /// `current`; both keep catalog order.
    pub fn partition(catalog: AvailableComponentsFile, current: &Platform) -> (r: Components)
        ensures
            r.compatible@ == catalog.components@.filter(
                |e: (String, Component)| e.1.supports(*current),
            ),
            r.incompatible@ == catalog.components@.filter(
                |e: (String, Component)| !e.1.supports(*current),
            ).map_values(|e: (String, Component)| (e.0, incompat_of(e.1, *current))),
    {
        let ghost orig = catalog.components@;
        let mut rest = catalog.components;
        let mut compatible: Vec<(String, Component)> = Vec::new();
        let mut incompatible: Vec<(String, IncompatibleComponent)> = Vec::new();
        let ghost mut k: int = 0;
        proof {
            reveal(Seq::filter);
            assert(orig.take(0) =~= Seq::<(String, Component)>::empty());
            assert(orig.skip(0) =~= orig);
        }
        while rest.len() > 0
            invariant
                0 <= k <= orig.len(),
                rest@ == orig.skip(k),
                compatible@ == orig.take(k).filter(|e: (String, Component)| e.1.supports(*current)),
                incompatible@ == orig.take(k).filter(
                    |e: (String, Component)| !e.1.supports(*current),
                ).map_values(
                    |e: (String, Component)| (e.0, incompat_of(e.1, *current)),
                ),
            decreases rest@.len(),
        {
            let pair = rest.remove(0);
            proof {
                reveal(Seq::filter);
                assert(orig.skip(k)[0] == orig[k]);
                assert(rest@ =~= orig.skip(k + 1));
                assert(orig.take(k + 1).drop_last() =~= orig.take(k));
                assert(orig.take(k + 1).last() == orig[k]);
            }
            let (key, comp) = pair;
            if comp.supports_platform(current) {
                compatible.push((key, comp));
                proof {
                    reveal(Seq::filter);
                    assert(compatible@ =~= orig.take(k + 1).filter(
                        |e: (String, Component)| e.1.supports(*current),
                    ));
                    assert(incompatible@ =~= orig.take(k + 1).filter(
                        |e: (String, Component)| !e.1.supports(*current),
                    ).map_values(|e: (String, Component)| (e.0, incompat_of(e.1, *current))));
                }
            } else {
                let reason = IncompatibilityReason::PlatformNotSupported(current.clone());
                let inc = comp.incompatible_because(reason);
                incompatible.push((key, inc));
                proof {
                    reveal(Seq::filter);
                    assert(compatible@ =~= orig.take(k + 1).filter(
                        |e: (String, Component)| e.1.supports(*current),
                    ));
                    assert(incompatible@ =~= orig.take(k + 1).filter(
                        |e: (String, Component)| !e.1.supports(*current),
                    ).map_values(|e: (String, Component)| (e.0, incompat_of(e.1, *current))));
                }
            }
            proof {
                k = k + 1;
            }
        }
        proof {
            assert(orig.take(k) =~= orig);
        }
        Components { compatible, incompatible }
    }
}

} // verus!
