//! The lifecycle of a scene: shapes are added, the scene is configured once,
//! and runs are started from the configured scene.
use vstd::prelude::*;

use crate::attribution::name_views;
use crate::run::{EstimateView, ViewFactorRun};

verus! {

/// Why the scene refused a request.
#[derive(Debug, Clone, Copy, PartialEq, Eq, Structural)]
pub enum SimulationError {
    /// A scene in which shapes emit no rays estimates nothing.
    ZeroEmissions,
    /// Shapes are added, and the scene configured, only before it is
    /// configured.
    AlreadyConfigured,
    /// A run needs a configured scene.
    NotConfigured,
}

/// The names of a scene's shapes in collection order, the number of rays each
/// shape emits in a run, and whether the scene has been configured.
pub struct Scene {
    names: Vec<String>,
    number_of_emissions: u64,
    configured: bool,
}

/// A copy of `names`.
fn copy_names(names: &Vec<String>) -> (r: Vec<String>)
    ensures
        r@ == names@,
{
    let mut r: Vec<String> = Vec::new();
    let mut i: usize = 0;
    while i < names.len()
        invariant
            i <= names.len(),
            r@ =~= names@.take(i as int),
        decreases names.len() - i,
    {
        r.push(names[i].clone());
        i = i + 1;
        assert(r@ =~= names@.take(i as int));
    }
    assert(names@.take(i as int) =~= names@);
    r
}

impl Scene {
    /// The names of the shapes, in the order they were added.
    pub closed spec fn names(&self) -> Seq<Seq<char>> {
        name_views(self.names@)
    }

    /// The number of rays each shape emits in a run.
    pub closed spec fn emissions(&self) -> nat {
        self.number_of_emissions as nat
    }

    /// Whether the scene has been configured.
    pub closed spec fn configured(&self) -> bool {
        self.configured
    }

    /// Shapes of the scene emit at least one ray each.
    pub closed spec fn wf(&self) -> bool {
        self.number_of_emissions > 0
    }

    /// An empty scene whose shapes will each emit `number_of_emissions` rays;
    /// refused when that number is zero.
    pub fn new(number_of_emissions: u64) -> (r: Result<Scene, SimulationError>)
        ensures
            number_of_emissions == 0 <==> r == Err::<Scene, _>(SimulationError::ZeroEmissions),
            number_of_emissions > 0 <==> r is Ok,
            r matches Ok(s) ==> {
                &&& s.wf()
                &&& s.names() == Seq::<Seq<char>>::empty()
                &&& s.emissions() == number_of_emissions
                &&& !s.configured()
            },
    {
        if number_of_emissions == 0 {
            return Err(SimulationError::ZeroEmissions);
        }
        let s = Scene { names: Vec::new(), number_of_emissions, configured: false };
        assert(s.names() =~= Seq::<Seq<char>>::empty());
        Ok(s)
    }

    /// Adds a shape called `name` at the end of the collection and returns its
    /// index; refused once the scene is configured.
    pub fn add_shape(&mut self, name: String) -> (r: Result<usize, SimulationError>)
        requires
            old(self).wf(),
        ensures
            final(self).wf(),
            final(self).emissions() == old(self).emissions(),
            final(self).configured() == old(self).configured(),
            old(self).configured() ==> {
                &&& r == Err::<usize, _>(SimulationError::AlreadyConfigured)
                &&& final(self).names() == old(self).names()
            },
            !old(self).configured() ==> {
                &&& r == Ok::<_, SimulationError>(old(self).names().len() as usize)
                &&& final(self).names() == old(self).names().push(name@)
            },
    {
        if self.configured {
            return Err(SimulationError::AlreadyConfigured);
        }
        let index = self.names.len();
        let ghost before = self.names@;
        self.names.push(name);
        assert(self.names() =~= name_views(before).push(name@));
        Ok(index)
    }

    /// Marks the scene configured; refused when it already is.
    pub fn configure(&mut self) -> (r: Result<(), SimulationError>)
        requires
            old(self).wf(),
        ensures
            final(self).wf(),
            final(self).names() == old(self).names(),
            final(self).emissions() == old(self).emissions(),
            final(self).configured(),
            old(self).configured() <==> r == Err::<(), _>(SimulationError::AlreadyConfigured),
            !old(self).configured() <==> r is Ok,
    {
        if self.configured {
            return Err(SimulationError::AlreadyConfigured);
        }
        self.configured = true;
        Ok(())
    }

    /// Starts a run over the scene's shapes; refused before the scene is
    /// configured. A scene may be run any number of times.
    pub fn start_run(&self) -> (r: Result<ViewFactorRun, SimulationError>)
        requires
            self.wf(),
        ensures
            !self.configured() <==> r == Err::<ViewFactorRun, _>(SimulationError::NotConfigured),
            self.configured() <==> r is Ok,
            r matches Ok(run) ==> {
                &&& run.wf()
                &&& run.names() == self.names()
                &&& run.emissions() == self.emissions()
                &&& run.emitter() == 0
                &&& run.completed() == Seq::<Seq<Seq<bool>>>::empty()
                &&& run.current() == Seq::<Seq<bool>>::empty()
                &&& run.estimates() == Seq::<EstimateView>::empty()
            },
    {
        if !self.configured {
            return Err(SimulationError::NotConfigured);
        }
        Ok(ViewFactorRun::new(copy_names(&self.names), self.number_of_emissions))
    }

    /// The number of shapes.
    pub fn shape_count(&self) -> (r: usize)
        ensures
            r == self.names().len(),
    {
        self.names.len()
    }

    /// The name of shape `i`.
    pub fn name(&self, i: usize) -> (r: &String)
        requires
            i < self.names().len(),
        ensures
            r@ == self.names()[i as int],
    {
        &self.names[i]
    }

    /// The number of rays each shape emits in a run.
    pub fn number_of_emissions(&self) -> (r: u64)
        ensures
            r == self.emissions(),
    {
        self.number_of_emissions
    }

    /// Whether the scene has been configured.
    pub fn is_configured(&self) -> (r: bool)
        ensures
            r == self.configured(),
    {
        self.configured
    }
}

} // verus!
