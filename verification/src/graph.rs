//! The signal graph: units, named endpoints and the connections between them.
//!
//! A graph is built once from a description of its topology and is never
//! rewired afterwards. Rendering one sample reads every input endpoint, runs
//! the units in schedule order (each unit first takes the values on the ports
//! it is connected to), and puts the values that reach output endpoints onto
//! their streams.

use vstd::prelude::*;
use crate::fixed::Fixed;
use crate::schedule::{dependencies_in_range, is_schedule, respects, schedule, Dependency};
use crate::stream::{dequeued_n, enqueued, held_after, nth_dequeued, InputEndpoint, OutputEndpoint};
use crate::processor::{models_of, Processor};

verus! {

/// Where a connection starts: the output port of an input endpoint, or an
/// output port of a unit.
#[derive(Clone, Copy, PartialEq, Eq, Structural, Debug)]
pub enum Source {
    Endpoint { input: usize },
    Unit { unit: usize, port: usize },
}

/// Where a connection ends: an input port of a unit, or the input port of an
/// output endpoint.
#[derive(Clone, Copy, PartialEq, Eq, Structural, Debug)]
pub enum Sink {
    Unit { unit: usize, port: usize },
    Endpoint { output: usize },
}

/// A connection from a source to a sink. A source may feed many sinks; a sink
/// is fed by at most one source.
#[derive(Clone, Copy, PartialEq, Eq, Structural, Debug)]
pub struct Connection {
    pub from: Source,
    pub to: Sink,
}

/// Why a topology was refused.
#[derive(Clone, Copy, PartialEq, Eq, Structural, Debug)]
pub enum ConfigurationError {
    /// Two endpoints have the same name.
    DuplicateEndpointName,
    /// A connection names an endpoint, a unit or a port that does not exist.
    DanglingConnection,
    /// Two connections end in the same sink.
    InputAlreadyConnected,
    /// The connections between units run in a circle.
    Cycle,
}

/// The dependencies between units that the first `upto` connections make:
/// one for each connection from a unit to a unit, in the connections' order.
pub open spec fn dependencies_upto(connections: Seq<Connection>, upto: nat) -> Seq<Dependency>
    decreases upto,
{
    if upto == 0 {
        Seq::empty()
    } else {
        let before = dependencies_upto(connections, (upto - 1) as nat);
        let c = connections[upto - 1];
        match (c.from, c.to) {
            (Source::Unit { unit: earlier, .. }, Sink::Unit { unit: later, .. }) => before.push(
                Dependency { earlier, later },
            ),
            _ => before,
        }
    }
}

/// The dependencies between units that the connections make.
pub open spec fn dependencies(connections: Seq<Connection>) -> Seq<Dependency> {
    dependencies_upto(connections, connections.len())
}

/// No two of the names are equal.
pub open spec fn names_distinct(names: Seq<Seq<char>>) -> bool {
    forall|i: int, j: int| 0 <= i < j < names.len() ==> names[i] != names[j]
}

/// No two of the connections end in the same sink.
pub open spec fn sinks_distinct(connections: Seq<Connection>) -> bool {
    forall|i: int, j: int| 0 <= i < j < connections.len() ==> connections[i].to != connections[j].to
}

/// The source exists among `inputs` input endpoints and the given units.
pub open spec fn source_exists<P: Processor>(inputs: nat, units: Seq<P::Model>, from: Source) -> bool {
    match from {
        Source::Endpoint { input } => input < inputs,
        Source::Unit { unit, port } => unit < units.len() && port < P::output_count(units[unit as int]),
    }
}

/// The sink exists among `outputs` output endpoints and the given units.
pub open spec fn sink_exists<P: Processor>(outputs: nat, units: Seq<P::Model>, to: Sink) -> bool {
    match to {
        Sink::Unit { unit, port } => unit < units.len() && port < P::input_count(units[unit as int]),
        Sink::Endpoint { output } => output < outputs,
    }
}

/// Every connection starts and ends at something that exists.
pub open spec fn connections_exist<P: Processor>(
    inputs: nat,
    outputs: nat,
    units: Seq<P::Model>,
    connections: Seq<Connection>,
) -> bool {
    forall|c: int|
        0 <= c < connections.len() ==> source_exists::<P>(
            inputs,
            units,
            (#[trigger] connections[c]).from,
        ) && sink_exists::<P>(outputs, units, connections[c].to)
}

/// What a graph is to its callers: the state of its endpoints and units, and
/// its fixed topology.
pub struct GraphView<P: Processor> {
    /// The names of the input endpoints.
    pub input_names: Seq<Seq<char>>,
    /// The value each input endpoint holds.
    pub held: Seq<Fixed>,
    /// The values waiting on each input endpoint, oldest first.
    pub waiting: Seq<Seq<Fixed>>,
    /// The names of the output endpoints.
    pub output_names: Seq<Seq<char>>,
    /// The rendered values not yet taken from each output endpoint.
    pub rendered: Seq<Seq<Fixed>>,
    /// The capacity of every endpoint's stream.
    pub capacity: nat,
    /// The models of the units, in the order of their declaration.
    pub units: Seq<P::Model>,
    /// The connections, in the order of their declaration.
    pub connections: Seq<Connection>,
    /// The order in which the units run.
    pub order: Seq<usize>,
}

impl<P: Processor> GraphView<P> {
    /// The names of all endpoints, inputs first.
    pub open spec fn endpoint_names(self) -> Seq<Seq<char>> {
        self.input_names + self.output_names
    }

    /// The graph's invariant.
    pub open spec fn wf(self) -> bool {
        &&& self.input_names.len() == self.held.len()
        &&& self.waiting.len() == self.held.len()
        &&& self.output_names.len() == self.rendered.len()
        &&& self.capacity >= 1
        &&& forall|i: int| 0 <= i < self.waiting.len() ==> (#[trigger] self.waiting[i]).len() <= self.capacity
        &&& forall|o: int|
            0 <= o < self.rendered.len() ==> (#[trigger] self.rendered[o]).len() <= self.capacity
        &&& forall|u: int| 0 <= u < self.units.len() ==> P::wf(#[trigger] self.units[u])
        &&& names_distinct(self.endpoint_names())
        &&& connections_exist::<P>(self.held.len(), self.rendered.len(), self.units, self.connections)
        &&& sinks_distinct(self.connections)
        &&& is_schedule(self.units.len(), dependencies(self.connections), self.order)
    }

    /// Two states of one graph: the topology is the same, and so are the
    /// numbers of endpoints and units.
    pub open spec fn same_shape(self, other: GraphView<P>) -> bool {
        &&& self.input_names == other.input_names
        &&& self.output_names == other.output_names
        &&& self.connections == other.connections
        &&& self.order == other.order
        &&& self.capacity == other.capacity
        &&& self.held.len() == other.held.len()
        &&& self.waiting.len() == other.waiting.len()
        &&& self.rendered.len() == other.rendered.len()
        &&& self.units.len() == other.units.len()
    }

    /// The value a source gives.
    pub open spec fn source_value(self, from: Source) -> Fixed {
        match from {
            Source::Endpoint { input } => self.held[input as int],
            Source::Unit { unit, port } => P::output_at(self.units[unit as int], port as int),
        }
    }

    /// The graph after every input endpoint has read its stream once.
    pub open spec fn fed(self) -> GraphView<P> {
        GraphView {
            held: Seq::new(self.held.len(), |i: int| held_after(self.held[i], self.waiting[i], 1)),
            waiting: Seq::new(self.waiting.len(), |i: int| dequeued_n(self.waiting[i], 1)),
            ..self
        }
    }

    /// Unit `unit` after it has taken the values of those of the first `upto`
    /// connections that end in it.
    pub open spec fn wired(self, unit: usize, upto: nat) -> P::Model
        decreases upto,
    {
        if upto == 0 {
            self.units[unit as int]
        } else {
            let before = self.wired(unit, (upto - 1) as nat);
            let c = self.connections[upto - 1];
            match c.to {
                Sink::Unit { unit: target, port } if target == unit => P::with_input(
                    before,
                    port as int,
                    self.source_value(c.from),
                ),
                _ => before,
            }
        }
    }

    /// The graph after the unit `unit` has taken its inputs and processed one
    /// sample.
    pub open spec fn ran_unit(self, unit: usize) -> GraphView<P> {
        GraphView {
            units: self.units.update(
                unit as int,
                P::processed(self.wired(unit, self.connections.len())),
            ),
            ..self
        }
    }

    /// The graph after the first `count` units of the schedule have run.
    pub open spec fn ran(self, count: nat) -> GraphView<P>
        decreases count,
    {
        if count == 0 {
            self
        } else {
            self.ran((count - 1) as nat).ran_unit(self.order[count - 1])
        }
    }

    /// The stream of output endpoint `output` after the values of those of the
    /// first `upto` connections that end in it were put on it.
    pub open spec fn collected(self, output: usize, upto: nat) -> Seq<Fixed>
        decreases upto,
    {
        if upto == 0 {
            self.rendered[output as int]
        } else {
            let before = self.collected(output, (upto - 1) as nat);
            let c = self.connections[upto - 1];
            match c.to {
                Sink::Endpoint { output: target } if target == output => enqueued(
                    before,
                    self.capacity,
                    self.source_value(c.from),
                ),
                _ => before,
            }
        }
    }

    /// The graph after every output endpoint has received its value.
    pub open spec fn delivered(self) -> GraphView<P> {
        GraphView {
            rendered: Seq::new(
                self.rendered.len(),
                |o: int| self.collected(o as usize, self.connections.len()),
            ),
            ..self
        }
    }

    /// The graph one sample later.
    pub open spec fn stepped(self) -> GraphView<P> {
        self.fed().ran(self.order.len()).delivered()
    }

    /// The graph `samples` samples later.
    pub open spec fn rendered_for(self, samples: nat) -> GraphView<P>
        decreases samples,
    {
        if samples == 0 {
            self
        } else {
            self.rendered_for((samples - 1) as nat).stepped()
        }
    }

    /// The graph after `value` was enqueued on input endpoint `input`.
    pub open spec fn with_enqueued(self, input: int, value: Fixed) -> GraphView<P> {
        GraphView {
            waiting: self.waiting.update(input, enqueued(self.waiting[input], self.capacity, value)),
            ..self
        }
    }

    /// The graph after one value was taken from output endpoint `output`.
    pub open spec fn with_dequeued(self, output: int) -> GraphView<P> {
        GraphView {
            rendered: self.rendered.update(output, dequeued_n(self.rendered[output], 1)),
            ..self
        }
    }

    /// The graph after every unit was told the sample rate.
    pub open spec fn prepared(self, sample_rate: u32) -> GraphView<P> {
        GraphView {
            units: Seq::new(self.units.len(), |u: int| P::prepared(self.units[u], sample_rate)),
            ..self
        }
    }
}


/// The views of a list of names.
pub open spec fn names_of(names: Seq<String>) -> Seq<Seq<char>> {
    names.map_values(|name: String| name@)
}

/// The graph that a topology describes, before anything was enqueued or
/// rendered: every input endpoint holds zero, every stream is empty.
pub open spec fn blueprint<P: Processor>(
    input_names: Seq<Seq<char>>,
    output_names: Seq<Seq<char>>,
    units: Seq<P::Model>,
    connections: Seq<Connection>,
    capacity: nat,
    order: Seq<usize>,
) -> GraphView<P> {
    GraphView {
        input_names,
        held: Seq::new(input_names.len(), |i: int| Fixed { raw: 0 }),
        waiting: Seq::new(input_names.len(), |i: int| Seq::empty()),
        output_names,
        rendered: Seq::new(output_names.len(), |o: int| Seq::empty()),
        capacity,
        units,
        connections,
        order,
    }
}

/// A signal graph over units of type `P`.
pub struct SignalGraph<P> {
    input_names: Vec<String>,
    inputs: Vec<InputEndpoint<Fixed>>,
    output_names: Vec<String>,
    outputs: Vec<OutputEndpoint<Fixed>>,
    units: Vec<P>,
    connections: Vec<Connection>,
    order: Vec<usize>,
    capacity: usize,
}

impl<P: Processor> View for SignalGraph<P> {
    type V = GraphView<P>;

    closed spec fn view(&self) -> GraphView<P> {
        GraphView {
            input_names: names_of(self.input_names@),
            held: self.inputs@.map_values(|e: InputEndpoint<Fixed>| e.held()),
            waiting: self.inputs@.map_values(|e: InputEndpoint<Fixed>| e.pending()),
            output_names: names_of(self.output_names@),
            rendered: self.outputs@.map_values(|e: OutputEndpoint<Fixed>| e.pending()),
            capacity: self.capacity as nat,
            units: models_of(self.units@),
            connections: self.connections@,
            order: self.order@,
        }
    }
}

/// No name of the first list is a name of the second.
pub open spec fn names_disjoint(first: Seq<Seq<char>>, second: Seq<Seq<char>>) -> bool {
    forall|i: int, j: int| 0 <= i < first.len() && 0 <= j < second.len() ==> first[i] != second[j]
}

/// The names of two lists together are distinct exactly if those of each list
/// are and the lists share none.
pub proof fn lemma_names_distinct_split(first: Seq<Seq<char>>, second: Seq<Seq<char>>)
    ensures
        names_distinct(first + second) <==> names_distinct(first) && names_distinct(second)
            && names_disjoint(first, second),
{
    let all = first + second;
    if names_distinct(all) {
        assert forall|i: int, j: int| 0 <= i < j < first.len() implies first[i] != first[j] by {
            assert(all[i] == first[i] && all[j] == first[j]);
        }
        assert forall|i: int, j: int| 0 <= i < j < second.len() implies second[i] != second[j] by {
            assert(all[first.len() + i] == second[i] && all[first.len() + j] == second[j]);
        }
        assert forall|i: int, j: int|
            0 <= i < first.len() && 0 <= j < second.len() implies first[i] != second[j] by {
            assert(all[i] == first[i] && all[first.len() + j] == second[j]);
        }
    }
    if names_distinct(first) && names_distinct(second) && names_disjoint(first, second) {
        assert forall|i: int, j: int| 0 <= i < j < all.len() implies all[i] != all[j] by {
            if j < first.len() {
                assert(all[i] == first[i] && all[j] == first[j]);
            } else if i >= first.len() {
                assert(all[i] == second[i - first.len()] && all[j] == second[j - first.len()]);
            } else {
                assert(all[i] == first[i] && all[j] == second[j - first.len()]);
            }
        }
    }
}

/// Whether no two names of the list are equal.
fn names_differ(names: &Vec<String>) -> (r: bool)
    ensures
        r == names_distinct(names_of(names@)),
{
    let mut j: usize = 0;
    while j < names.len()
        invariant
            j <= names.len(),
            forall|a: int, b: int| 0 <= a < b < j ==> names_of(names@)[a] != names_of(names@)[b],
        decreases names.len() - j,
    {
        let mut i: usize = 0;
        while i < j
            invariant
                i <= j,
                j < names.len(),
                forall|a: int| 0 <= a < i ==> names_of(names@)[a] != names_of(names@)[j as int],
            decreases j - i,
        {
            assert(names_of(names@)[i as int] == names[i as int]@);
            assert(names_of(names@)[j as int] == names[j as int]@);
            if names[i] == names[j] {
                return false;
            }
            i = i + 1;
        }
        j = j + 1;
    }
    true
}

/// Whether no name of the first list is a name of the second.
fn names_apart(first: &Vec<String>, second: &Vec<String>) -> (r: bool)
    ensures
        r == names_disjoint(names_of(first@), names_of(second@)),
{
    let mut i: usize = 0;
    while i < first.len()
        invariant
            i <= first.len(),
            forall|a: int, b: int|
                0 <= a < i && 0 <= b < second.len() ==> names_of(first@)[a] != names_of(second@)[b],
        decreases first.len() - i,
    {
        let mut j: usize = 0;
        while j < second.len()
            invariant
                j <= second.len(),
                i < first.len(),
                forall|b: int| 0 <= b < j ==> names_of(first@)[i as int] != names_of(second@)[b],
            decreases second.len() - j,
        {
            assert(names_of(first@)[i as int] == first[i as int]@);
            assert(names_of(second@)[j as int] == second[j as int]@);
            if first[i] == second[j] {
                return false;
            }
            j = j + 1;
        }
        i = i + 1;
    }
    true
}

/// Whether no two endpoints have the same name.
fn endpoint_names_distinct(inputs: &Vec<String>, outputs: &Vec<String>) -> (r: bool)
    ensures
        r == names_distinct(names_of(inputs@) + names_of(outputs@)),
{
    proof {
        lemma_names_distinct_split(names_of(inputs@), names_of(outputs@));
    }
    names_differ(inputs) && names_differ(outputs) && names_apart(inputs, outputs)
}

/// Whether no two connections end in the same sink.
fn connection_sinks_distinct(connections: &Vec<Connection>) -> (r: bool)
    ensures
        r == sinks_distinct(connections@),
{
    let mut j: usize = 0;
    while j < connections.len()
        invariant
            j <= connections.len(),
            forall|a: int, b: int| 0 <= a < b < j ==> connections[a].to != connections[b].to,
        decreases connections.len() - j,
    {
        let mut i: usize = 0;
        while i < j
            invariant
                i <= j,
                j < connections.len(),
                forall|a: int| 0 <= a < i ==> connections[a].to != connections[j as int].to,
            decreases j - i,
        {
            if connections[i].to == connections[j].to {
                return false;
            }
            i = i + 1;
        }
        j = j + 1;
    }
    true
}

/// Whether every connection starts and ends at something that exists, in a
/// graph of `inputs` input endpoints, `outputs` output endpoints and the
/// given units.
fn connections_in_range<P: Processor>(
    inputs: usize,
    outputs: usize,
    units: &Vec<P>,
    connections: &Vec<Connection>,
) -> (r: bool)
    requires
        forall|u: int| 0 <= u < units.len() ==> P::wf((#[trigger] units[u]).model()),
    ensures
        r == connections_exist::<P>(inputs as nat, outputs as nat, models_of(units@), connections@),
{
    let mut c: usize = 0;
    while c < connections.len()
        invariant
            c <= connections.len(),
            forall|u: int| 0 <= u < units.len() ==> P::wf((#[trigger] units[u]).model()),
            forall|d: int|
                0 <= d < c ==> source_exists::<P>(
                    inputs as nat,
                    models_of(units@),
                    (#[trigger] connections[d]).from,
                ) && sink_exists::<P>(outputs as nat, models_of(units@), connections[d].to),
        decreases connections.len() - c,
    {
        let connection = connections[c];
        let source_ok = match connection.from {
            Source::Endpoint { input } => input < inputs,
            Source::Unit { unit, port } => unit < units.len() && port < units[unit].outputs(),
        };
        let sink_ok = match connection.to {
            Sink::Unit { unit, port } => unit < units.len() && port < units[unit].inputs(),
            Sink::Endpoint { output } => output < outputs,
        };
        if !source_ok || !sink_ok {
            return false;
        }
        c = c + 1;
    }
    true
}

/// The dependencies between units that the connections make.
fn collect_dependencies(connections: &Vec<Connection>) -> (deps: Vec<Dependency>)
    ensures
        deps@ == dependencies(connections@),
{
    let mut deps: Vec<Dependency> = Vec::new();
    let mut c: usize = 0;
    while c < connections.len()
        invariant
            c <= connections.len(),
            deps@ == dependencies_upto(connections@, c as nat),
        decreases connections.len() - c,
    {
        let connection = connections[c];
        match connection.from {
            Source::Unit { unit: earlier, .. } => {
                match connection.to {
                    Sink::Unit { unit: later, .. } => {
                        deps.push(Dependency { earlier, later });
                    },
                    Sink::Endpoint { .. } => {},
                }
            },
            Source::Endpoint { .. } => {},
        }
        c = c + 1;
    }
    deps
}

/// Each dependency comes from a connection between two units.
pub proof fn lemma_dependency_origin(connections: Seq<Connection>, upto: nat, d: int)
    requires
        upto <= connections.len(),
        0 <= d < dependencies_upto(connections, upto).len(),
    ensures
        exists|c: int|
            0 <= c < upto && (#[trigger] connections[c]).from is Unit && connections[c].to is Unit
                && connections[c].from->Unit_unit == dependencies_upto(connections, upto)[d].earlier
                && connections[c].to->Unit_unit == dependencies_upto(connections, upto)[d].later,
    decreases upto,
{
    let before = dependencies_upto(connections, (upto - 1) as nat);
    if d < before.len() {
        lemma_dependency_origin(connections, (upto - 1) as nat, d);
        let c = choose|c: int|
            0 <= c < upto - 1 && (#[trigger] connections[c]).from is Unit && connections[c].to is Unit
                && connections[c].from->Unit_unit == before[d].earlier
                && connections[c].to->Unit_unit == before[d].later;
        assert(0 <= c < upto);
    } else {
        let c = upto - 1;
        assert(connections[c].from is Unit && connections[c].to is Unit);
    }
}

/// Each connection between two units makes a dependency.
pub proof fn lemma_connection_depends(connections: Seq<Connection>, upto: nat, c: int)
    requires
        upto <= connections.len(),
        0 <= c < upto,
        connections[c].from is Unit,
        connections[c].to is Unit,
    ensures
        exists|d: int|
            0 <= d < dependencies_upto(connections, upto).len() && (#[trigger] dependencies_upto(
                connections,
                upto,
            )[d]) == (Dependency {
                earlier: connections[c].from->Unit_unit,
                later: connections[c].to->Unit_unit,
            }),
    decreases upto,
{
    let before = dependencies_upto(connections, (upto - 1) as nat);
    let all = dependencies_upto(connections, upto);
    if c < upto - 1 {
        lemma_connection_depends(connections, (upto - 1) as nat, c);
        let d = choose|d: int|
            0 <= d < before.len() && (#[trigger] before[d]) == (Dependency {
                earlier: connections[c].from->Unit_unit,
                later: connections[c].to->Unit_unit,
            });
        assert(all[d] == before[d]);
    } else {
        assert(all[before.len() as int] == (Dependency {
            earlier: connections[c].from->Unit_unit,
            later: connections[c].to->Unit_unit,
        }));
    }
}


/// Why a topology is refused, if it is. The checks come in this order: the
/// endpoint names, the ends of the connections, the sinks, the cycles.
pub open spec fn refusal<P: Processor>(
    input_names: Seq<Seq<char>>,
    output_names: Seq<Seq<char>>,
    units: Seq<P::Model>,
    connections: Seq<Connection>,
) -> Option<ConfigurationError> {
    if !names_distinct(input_names + output_names) {
        Some(ConfigurationError::DuplicateEndpointName)
    } else if !connections_exist::<P>(input_names.len(), output_names.len(), units, connections) {
        Some(ConfigurationError::DanglingConnection)
    } else if !sinks_distinct(connections) {
        Some(ConfigurationError::InputAlreadyConnected)
    } else if forall|order: Seq<usize>| !respects(units.len(), dependencies(connections), order) {
        Some(ConfigurationError::Cycle)
    } else {
        None
    }
}

/// Connections that exist make dependencies between units that exist.
proof fn lemma_dependencies_in_range<P: Processor>(
    inputs: nat,
    outputs: nat,
    units: Seq<P::Model>,
    connections: Seq<Connection>,
)
    requires
        connections_exist::<P>(inputs, outputs, units, connections),
    ensures
        dependencies_in_range(units.len(), dependencies(connections)),
{
    let deps = dependencies(connections);
    assert forall|d: int| 0 <= d < deps.len() implies (#[trigger] deps[d]).earlier < units.len()
        && deps[d].later < units.len() by {
        lemma_dependency_origin(connections, connections.len(), d);
        let c = choose|c: int|
            0 <= c < connections.len() && (#[trigger] connections[c]).from is Unit
                && connections[c].to is Unit && connections[c].from->Unit_unit == deps[d].earlier
                && connections[c].to->Unit_unit == deps[d].later;
        assert(source_exists::<P>(inputs, units, connections[c].from));
        assert(sink_exists::<P>(outputs, units, connections[c].to));
    }
}

impl<P: Processor> SignalGraph<P> {
    /// The graph's invariant: every stream inside has the graph's capacity,
    /// and the view is well-formed.
    pub closed spec fn wf(&self) -> bool {
        &&& self.inputs.len() == self.input_names.len()
        &&& self.outputs.len() == self.output_names.len()
        &&& forall|i: int|
            0 <= i < self.inputs.len() ==> (#[trigger] self.inputs[i]).wf() && self.inputs[i].capacity()
                == self.capacity
        &&& forall|o: int|
            0 <= o < self.outputs.len() ==> (#[trigger] self.outputs[o]).wf()
                && self.outputs[o].capacity() == self.capacity
        &&& self@.wf()
    }

    /// A well-formed graph has a well-formed view.
    pub proof fn lemma_view_wf(&self)
        requires
            self.wf(),
        ensures
            self@.wf(),
    {
    }

    /// Builds a graph from its topology: the names of its input and output
    /// endpoints, its units, and its connections. Every endpoint gets a stream
    /// of the given capacity (at least one). A malformed topology is refused.
    pub fn build(
        input_names: Vec<String>,
        output_names: Vec<String>,
        units: Vec<P>,
        connections: Vec<Connection>,
        capacity: usize,
    ) -> (r: Result<SignalGraph<P>, ConfigurationError>)
        requires
            forall|u: int| 0 <= u < units.len() ==> P::wf((#[trigger] units[u]).model()),
        ensures
            match r {
                Ok(graph) => {
                    &&& refusal::<P>(
                        names_of(input_names@),
                        names_of(output_names@),
                        models_of(units@),
                        connections@,
                    ) is None
                    &&& graph.wf()
                    &&& graph@ == blueprint::<P>(
                        names_of(input_names@),
                        names_of(output_names@),
                        models_of(units@),
                        connections@,
                        if capacity == 0 {
                            1
                        } else {
                            capacity as nat
                        },
                        graph@.order,
                    )
                },
                Err(error) => refusal::<P>(
                    names_of(input_names@),
                    names_of(output_names@),
                    models_of(units@),
                    connections@,
                ) == Some(error),
            },
    {
        if !endpoint_names_distinct(&input_names, &output_names) {
            return Err(ConfigurationError::DuplicateEndpointName);
        }
        if !connections_in_range(input_names.len(), output_names.len(), &units, &connections) {
            return Err(ConfigurationError::DanglingConnection);
        }
        if !connection_sinks_distinct(&connections) {
            return Err(ConfigurationError::InputAlreadyConnected);
        }
        let deps = collect_dependencies(&connections);
        proof {
            lemma_dependencies_in_range::<P>(
                input_names.len() as nat,
                output_names.len() as nat,
                models_of(units@),
                connections@,
            );
        }
        let order = match schedule(units.len(), &deps) {
            Some(order) => order,
            None => {
                return Err(ConfigurationError::Cycle);
            },
        };
        proof {
            crate::schedule::lemma_schedule_respects(units.len() as nat, deps@, order@);
        }
        let limit: usize = if capacity == 0 { 1 } else { capacity };
        let mut inputs: Vec<InputEndpoint<Fixed>> = Vec::new();
        let mut i: usize = 0;
        while i < input_names.len()
            invariant
                i <= input_names.len(),
                inputs.len() == i,
                limit >= 1,
                forall|k: int|
                    0 <= k < i ==> (#[trigger] inputs[k]).wf() && inputs[k].capacity() == limit
                        && inputs[k].held() == (Fixed { raw: 0 }) && inputs[k].pending()
                        == Seq::<Fixed>::empty(),
            decreases input_names.len() - i,
        {
            inputs.push(InputEndpoint::new(limit, Fixed::zero()));
            i = i + 1;
        }
        let mut outputs: Vec<OutputEndpoint<Fixed>> = Vec::new();
        let mut o: usize = 0;
        while o < output_names.len()
            invariant
                o <= output_names.len(),
                outputs.len() == o,
                limit >= 1,
                forall|k: int|
                    0 <= k < o ==> (#[trigger] outputs[k]).wf() && outputs[k].capacity() == limit
                        && outputs[k].pending() == Seq::<Fixed>::empty(),
            decreases output_names.len() - o,
        {
            outputs.push(OutputEndpoint::new(limit));
            o = o + 1;
        }
        let graph = SignalGraph {
            input_names,
            inputs,
            output_names,
            outputs,
            units,
            connections,
            order,
            capacity: limit,
        };
        proof {
            let target = blueprint::<P>(
                names_of(graph.input_names@),
                names_of(graph.output_names@),
                models_of(graph.units@),
                graph.connections@,
                limit as nat,
                graph.order@,
            );
            assert(graph@.held =~= target.held);
            assert(graph@.waiting =~= target.waiting);
            assert(graph@.rendered =~= target.rendered);
            assert(graph@ == target);
        }
        Ok(graph)
    }
}


impl<P: Processor> SignalGraph<P> {
    /// Reads the value a source gives.
    fn read_source(&self, from: Source) -> (r: Fixed)
        requires
            self.wf(),
            source_exists::<P>(self@.held.len(), self@.units, from),
        ensures
            r == self@.source_value(from),
    {
        match from {
            Source::Endpoint { input } => self.inputs[input].output(),
            Source::Unit { unit, port } => self.units[unit].output(port),
        }
    }

    /// Lets every input endpoint read its stream once.
    fn feed(&mut self)
        requires
            old(self).wf(),
        ensures
            final(self).wf(),
            final(self)@ == old(self)@.fed(),
    {
        let mut i: usize = 0;
        while i < self.inputs.len()
            invariant
                i <= self.inputs.len(),
                self.inputs.len() == old(self).inputs.len(),
                self.input_names == old(self).input_names,
                self.output_names == old(self).output_names,
                self.outputs == old(self).outputs,
                self.units == old(self).units,
                self.connections == old(self).connections,
                self.order == old(self).order,
                self.capacity == old(self).capacity,
                old(self).wf(),
                forall|k: int|
                    0 <= k < self.inputs.len() ==> (#[trigger] self.inputs[k]).wf()
                        && self.inputs[k].capacity() == self.capacity,
                forall|k: int|
                    0 <= k < i ==> (#[trigger] self.inputs[k]).held() == held_after(
                        old(self).inputs[k].held(),
                        old(self).inputs[k].pending(),
                        1,
                    ) && self.inputs[k].pending() == dequeued_n(old(self).inputs[k].pending(), 1),
                forall|k: int| i <= k < self.inputs.len() ==> self.inputs[k] == old(self).inputs[k],
            decreases self.inputs.len() - i,
        {
            self.inputs[i].advance();
            i = i + 1;
        }
        proof {
            let target = old(self)@.fed();
            assert(self@.held =~= target.held);
            assert(self@.waiting =~= target.waiting);
            assert(self@ == target);
            assert forall|k: int| 0 <= k < self@.waiting.len() implies (#[trigger] self@.waiting[k]).len()
                <= self@.capacity by {
                self.inputs[k].lemma_bounded();
            }
        }
    }

    /// Writes `value` to input port `port` of unit `unit`.
    fn unit_set_input(&mut self, unit: usize, port: usize, value: Fixed)
        requires
            old(self).wf(),
            unit < old(self)@.units.len(),
        ensures
            final(self).wf(),
            final(self)@ == (GraphView {
                units: old(self)@.units.update(
                    unit as int,
                    P::with_input(old(self)@.units[unit as int], port as int, value),
                ),
                ..old(self)@
            }),
            P::input_count(final(self)@.units[unit as int]) == P::input_count(
                old(self)@.units[unit as int],
            ),
            P::output_count(final(self)@.units[unit as int]) == P::output_count(
                old(self)@.units[unit as int],
            ),
    {
        let ghost before = self@;
        assert(before.units[unit as int] == self.units@[unit as int].model());
        self.units[unit].set_input(port, value);
        proof {
            self.lemma_unit_changed(*old(self), unit as int);
        }
    }

    /// Lets unit `unit` process one sample.
    fn unit_process(&mut self, unit: usize)
        requires
            old(self).wf(),
            unit < old(self)@.units.len(),
        ensures
            final(self).wf(),
            final(self)@ == (GraphView {
                units: old(self)@.units.update(
                    unit as int,
                    P::processed(old(self)@.units[unit as int]),
                ),
                ..old(self)@
            }),
    {
        let ghost before = self@;
        assert(before.units[unit as int] == self.units@[unit as int].model());
        self.units[unit].process();
        proof {
            self.lemma_unit_changed(*old(self), unit as int);
        }
    }

    /// Tells unit `unit` the sample rate.
    fn unit_prepare(&mut self, unit: usize, sample_rate: u32)
        requires
            old(self).wf(),
            unit < old(self)@.units.len(),
        ensures
            final(self).wf(),
            final(self)@ == (GraphView {
                units: old(self)@.units.update(
                    unit as int,
                    P::prepared(old(self)@.units[unit as int], sample_rate),
                ),
                ..old(self)@
            }),
    {
        let ghost before = self@;
        assert(before.units[unit as int] == self.units@[unit as int].model());
        self.units[unit].prepare(sample_rate);
        proof {
            self.lemma_unit_changed(*old(self), unit as int);
        }
    }

    /// A graph in which one unit of a well-formed graph was replaced by a
    /// well-formed unit with as many ports is well-formed, and its view
    /// differs in that unit's model only.
    proof fn lemma_unit_changed(&self, before: SignalGraph<P>, unit: int)
        requires
            before.wf(),
            0 <= unit < before.units.len(),
            self.units@ == before.units@.update(unit, self.units@[unit]),
            self.input_names == before.input_names,
            self.inputs == before.inputs,
            self.output_names == before.output_names,
            self.outputs == before.outputs,
            self.connections == before.connections,
            self.order == before.order,
            self.capacity == before.capacity,
            P::wf(self.units@[unit].model()),
            P::input_count(self.units@[unit].model()) == P::input_count(
                before.units@[unit].model(),
            ),
            P::output_count(self.units@[unit].model()) == P::output_count(
                before.units@[unit].model(),
            ),
        ensures
            self.wf(),
            self@ == (GraphView {
                units: before@.units.update(unit, self.units@[unit].model()),
                ..before@
            }),
    {
        assert(self@.units =~= before@.units.update(unit, self.units@[unit].model()));
        assert forall|u: int| 0 <= u < self@.units.len() implies P::wf(#[trigger] self@.units[u])
            && P::input_count(self@.units[u]) == P::input_count(before@.units[u])
            && P::output_count(self@.units[u]) == P::output_count(before@.units[u]) by {
            if u != unit {
                assert(self@.units[u] == before@.units[u]);
            }
        }
        assert forall|c: int| 0 <= c < self@.connections.len() implies source_exists::<P>(
            self@.held.len(),
            self@.units,
            (#[trigger] self@.connections[c]).from,
        ) && sink_exists::<P>(self@.rendered.len(), self@.units, self@.connections[c].to) by {
            assert(source_exists::<P>(before@.held.len(), before@.units, before@.connections[c].from));
            assert(sink_exists::<P>(before@.rendered.len(), before@.units, before@.connections[c].to));
            match self@.connections[c].from {
                Source::Unit { unit: from, .. } => {
                    assert(P::output_count(self@.units[from as int]) == P::output_count(
                        before@.units[from as int],
                    ));
                },
                _ => {},
            }
            match self@.connections[c].to {
                Sink::Unit { unit: to, .. } => {
                    assert(P::input_count(self@.units[to as int]) == P::input_count(
                        before@.units[to as int],
                    ));
                },
                _ => {},
            }
        }
    }

    /// Lets unit `unit` take the values on the ports it is connected to and
    /// process one sample.
    fn run_unit(&mut self, unit: usize)
        requires
            old(self).wf(),
            unit < old(self)@.units.len(),
            forall|c: int|
                0 <= c < old(self)@.connections.len() && (#[trigger] old(self)@.connections[c]).to is Unit
                    && old(self)@.connections[c].to->Unit_unit == unit && old(
                    self,
                )@.connections[c].from is Unit ==> old(self)@.connections[c].from->Unit_unit != unit,
        ensures
            final(self).wf(),
            final(self)@ == old(self)@.ran_unit(unit),
    {
        let ghost start = self@;
        assert(start.units.update(unit as int, start.wired(unit, 0)) =~= start.units);
        let mut c: usize = 0;
        while c < self.connections.len()
            invariant
                c <= self.connections.len(),
                self.wf(),
                start == old(self)@,
                unit < start.units.len(),
                self@ == (GraphView {
                    units: start.units.update(unit as int, start.wired(unit, c as nat)),
                    ..start
                }),
                forall|u: int|
                    0 <= u < start.units.len() ==> P::input_count(#[trigger] self@.units[u])
                        == P::input_count(start.units[u]) && P::output_count(self@.units[u])
                        == P::output_count(start.units[u]),
                forall|d: int|
                    0 <= d < start.connections.len() && (#[trigger] start.connections[d]).to is Unit
                        && start.connections[d].to->Unit_unit == unit
                        && start.connections[d].from is Unit
                        ==> start.connections[d].from->Unit_unit != unit,
            decreases self.connections.len() - c,
        {
            let connection = self.connections[c];
            let ghost before = self@;
            match connection.to {
                Sink::Unit { unit: target, port } => {
                    if target == unit {
                        assert(source_exists::<P>(before.held.len(), before.units, connection.from));
                        assert(sink_exists::<P>(before.rendered.len(), before.units, connection.to));
                        let value = self.read_source(connection.from);
                        assert(value == start.source_value(connection.from));
                        self.unit_set_input(unit, port, value);
                        proof {
                            assert(self@.units =~= start.units.update(
                                unit as int,
                                start.wired(unit, (c + 1) as nat),
                            ));
                        }
                    }
                },
                Sink::Endpoint { .. } => {},
            }
            c = c + 1;
        }
        self.unit_process(unit);
        proof {
            assert(self@.units =~= old(self)@.ran_unit(unit).units);
        }
    }
}


impl<P: Processor> SignalGraph<P> {
    /// Puts the value of every connection that ends in an output endpoint on
    /// that endpoint's stream.
    fn deliver(&mut self)
        requires
            old(self).wf(),
        ensures
            final(self).wf(),
            final(self)@ == old(self)@.delivered(),
    {
        let ghost start = self@;
        let mut c: usize = 0;
        while c < self.connections.len()
            invariant
                c <= self.connections.len(),
                self.wf(),
                start == old(self)@,
                self@.rendered.len() == start.rendered.len(),
                forall|o: int|
                    0 <= o < start.rendered.len() ==> (#[trigger] self@.rendered[o]) == start.collected(
                        o as usize,
                        c as nat,
                    ),
                self@ == (GraphView { rendered: self@.rendered, ..start }),
            decreases self.connections.len() - c,
        {
            let connection = self.connections[c];
            let ghost before = self@;
            match connection.to {
                Sink::Endpoint { output } => {
                    assert(source_exists::<P>(before.held.len(), before.units, connection.from));
                    assert(sink_exists::<P>(before.rendered.len(), before.units, connection.to));
                    let value = self.read_source(connection.from);
                    self.outputs[output].push(value);
                    proof {
                        assert(self@.rendered =~= before.rendered.update(
                            output as int,
                            enqueued(before.rendered[output as int], before.capacity, value),
                        ));
                        assert(self@.held == before.held);
                        assert(self@.waiting == before.waiting);
                        assert forall|o: int| 0 <= o < self@.rendered.len() implies (
                        #[trigger] self@.rendered[o]).len() <= self@.capacity by {
                            self.outputs[o].lemma_bounded();
                        }
                    }
                },
                Sink::Unit { .. } => {},
            }
            c = c + 1;
        }
        proof {
            assert(self@.rendered =~= start.delivered().rendered);
        }
    }

    /// Renders one sample.
    pub fn render_one(&mut self)
        requires
            old(self).wf(),
        ensures
            final(self).wf(),
            final(self)@ == old(self)@.stepped(),
            old(self)@.same_shape(final(self)@),
            final(self)@.held == old(self)@.fed().held,
    {
        proof {
            lemma_stepped_shape(old(self)@);
        }
        self.feed();
        let ghost fed = self@;
        let mut k: usize = 0;
        while k < self.order.len()
            invariant
                k <= self.order.len(),
                self.wf(),
                fed == old(self)@.fed(),
                self@.order == fed.order,
                self@ == fed.ran(k as nat),
            decreases self.order.len() - k,
        {
            let unit = self.order[k];
            proof {
                let view = self@;
                let deps = dependencies(view.connections);
                assert(crate::schedule::unit_ready(deps, view.order.take(k as int), view.order[k as int]));
                assert forall|c: int|
                    0 <= c < view.connections.len() && (#[trigger] view.connections[c]).to is Unit
                        && view.connections[c].to->Unit_unit == unit
                        && view.connections[c].from is Unit implies view.connections[c].from->Unit_unit
                    != unit by {
                    lemma_connection_depends(view.connections, view.connections.len(), c);
                    let d = choose|d: int|
                        0 <= d < deps.len() && (#[trigger] deps[d]) == (Dependency {
                            earlier: view.connections[c].from->Unit_unit,
                            later: view.connections[c].to->Unit_unit,
                        });
                    assert(view.order.take(k as int).contains(deps[d].earlier));
                }
            }
            self.run_unit(unit);
            k = k + 1;
        }
        self.deliver();
    }

    /// Renders `samples` samples, one after the other.
    pub fn render(&mut self, samples: usize)
        requires
            old(self).wf(),
        ensures
            final(self).wf(),
            final(self)@ == old(self)@.rendered_for(samples as nat),
            old(self)@.same_shape(final(self)@),
    {
        proof {
            lemma_rendered_shape(old(self)@, samples as nat);
        }
        let mut done: usize = 0;
        while done < samples
            invariant
                done <= samples,
                self.wf(),
                self@ == old(self)@.rendered_for(done as nat),
            decreases samples - done,
        {
            self.render_one();
            done = done + 1;
        }
    }

    /// Tells every unit the sample rate. Called once, before rendering.
    pub fn prepare(&mut self, sample_rate: u32)
        requires
            old(self).wf(),
        ensures
            final(self).wf(),
            final(self)@ == old(self)@.prepared(sample_rate),
            old(self)@.same_shape(final(self)@),
    {
        let mut u: usize = 0;
        while u < self.units.len()
            invariant
                u <= self.units.len(),
                self.wf(),
                self.units.len() == old(self)@.units.len(),
                self@.units.len() == old(self)@.units.len(),
                self@ == (GraphView { units: self@.units, ..old(self)@ }),
                forall|k: int|
                    0 <= k < u ==> (#[trigger] self@.units[k]) == P::prepared(
                        old(self)@.units[k],
                        sample_rate,
                    ),
                forall|k: int| u <= k < self.units.len() ==> (#[trigger] self@.units[k]) == old(
                    self,
                )@.units[k],
            decreases self.units.len() - u,
        {
            self.unit_prepare(u, sample_rate);
            u = u + 1;
        }
        proof {
            assert(self@.units =~= old(self)@.prepared(sample_rate).units);
        }
    }

    /// The producer side of input endpoint `input`: appends `value` to its
    /// stream. If the stream is full, its oldest value is evicted and
    /// returned.
    pub fn enqueue(&mut self, input: usize, value: Fixed) -> (evicted: Option<Fixed>)
        requires
            old(self).wf(),
            input < old(self)@.held.len(),
        ensures
            final(self).wf(),
            final(self)@ == old(self)@.with_enqueued(input as int, value),
            evicted == (if old(self)@.waiting[input as int].len() < old(self)@.capacity {
                None
            } else {
                Some(old(self)@.waiting[input as int][0])
            }),
    {
        let ghost before = self@;
        let evicted = self.inputs[input].enqueue(value);
        proof {
            assert(self@.waiting =~= before.with_enqueued(input as int, value).waiting);
            assert(self@.held =~= before.held);
            assert forall|k: int| 0 <= k < self@.waiting.len() implies (#[trigger] self@.waiting[k]).len()
                <= self@.capacity by {
                self.inputs[k].lemma_bounded();
            }
        }
        evicted
    }

    /// The consumer side of output endpoint `output`: takes the oldest
    /// rendered value from its stream, if there is one.
    pub fn dequeue(&mut self, output: usize) -> (r: Option<Fixed>)
        requires
            old(self).wf(),
            output < old(self)@.rendered.len(),
        ensures
            final(self).wf(),
            final(self)@ == old(self)@.with_dequeued(output as int),
            r == nth_dequeued(old(self)@.rendered[output as int], 0),
    {
        let ghost before = self@;
        let r = self.outputs[output].dequeue();
        proof {
            assert(self@.rendered =~= before.with_dequeued(output as int).rendered);
            assert forall|k: int| 0 <= k < self@.rendered.len() implies (#[trigger] self@.rendered[k]).len()
                <= self@.capacity by {
                self.outputs[k].lemma_bounded();
            }
        }
        r
    }

    /// The number of input endpoints.
    pub fn input_count(&self) -> (n: usize)
        requires
            self.wf(),
        ensures
            n == self@.held.len(),
    {
        self.inputs.len()
    }

    /// The number of output endpoints.
    pub fn output_count(&self) -> (n: usize)
        requires
            self.wf(),
        ensures
            n == self@.rendered.len(),
    {
        self.outputs.len()
    }

    /// The number of units.
    pub fn unit_count(&self) -> (n: usize)
        ensures
            n == self@.units.len(),
    {
        self.units.len()
    }

    /// The order in which the units run.
    pub fn schedule(&self) -> (order: &Vec<usize>)
        ensures
            order@ == self@.order,
    {
        &self.order
    }

    /// The unit declared `unit`-th.
    pub fn unit(&self, unit: usize) -> (r: &P)
        requires
            unit < self@.units.len(),
        ensures
            r.model() == self@.units[unit as int],
    {
        &self.units[unit]
    }

    /// The value input endpoint `input` holds.
    pub fn held(&self, input: usize) -> (r: Fixed)
        requires
            self.wf(),
            input < self@.held.len(),
        ensures
            r == self@.held[input as int],
    {
        self.inputs[input].output()
    }

    /// The input endpoint of the given name, if there is one.
    pub fn input_named(&self, name: &String) -> (r: Option<usize>)
        requires
            self.wf(),
        ensures
            match r {
                Some(input) => input < self@.input_names.len() && self@.input_names[input as int]
                    == name@,
                None => forall|i: int|
                    0 <= i < self@.input_names.len() ==> self@.input_names[i] != name@,
            },
    {
        index_of_name(&self.input_names, name)
    }

    /// The output endpoint of the given name, if there is one.
    pub fn output_named(&self, name: &String) -> (r: Option<usize>)
        requires
            self.wf(),
        ensures
            match r {
                Some(output) => output < self@.output_names.len()
                    && self@.output_names[output as int] == name@,
                None => forall|o: int|
                    0 <= o < self@.output_names.len() ==> self@.output_names[o] != name@,
            },
    {
        index_of_name(&self.output_names, name)
    }
}

/// The place of `name` in `names`, if it is there.
fn index_of_name(names: &Vec<String>, name: &String) -> (r: Option<usize>)
    ensures
        match r {
            Some(at) => at < names.len() && names_of(names@)[at as int] == name@,
            None => forall|k: int| 0 <= k < names.len() ==> names_of(names@)[k] != name@,
        },
{
    let mut k: usize = 0;
    while k < names.len()
        invariant
            k <= names.len(),
            forall|j: int| 0 <= j < k ==> names_of(names@)[j] != name@,
        decreases names.len() - k,
    {
        if names[k] == *name {
            return Some(k);
        }
        k = k + 1;
    }
    None
}


/// Running units changes nothing but the units, and not their number.
pub proof fn lemma_ran_shape<P: Processor>(graph: GraphView<P>, count: nat)
    requires
        count <= graph.order.len(),
        forall|k: int| 0 <= k < graph.order.len() ==> (#[trigger] graph.order[k]) < graph.units.len(),
    ensures
        graph.ran(count) == (GraphView { units: graph.ran(count).units, ..graph }),
        graph.ran(count).units.len() == graph.units.len(),
    decreases count,
{
    if count > 0 {
        lemma_ran_shape(graph, (count - 1) as nat);
    }
}

/// Rendering a sample changes neither the topology of a graph nor the number
/// of its endpoints and units, and what the input endpoints hold after it is
/// what they read at its start.
pub proof fn lemma_stepped_shape<P: Processor>(graph: GraphView<P>)
    requires
        forall|k: int| 0 <= k < graph.order.len() ==> (#[trigger] graph.order[k]) < graph.units.len(),
    ensures
        graph.same_shape(graph.stepped()),
        graph.stepped().held == graph.fed().held,
        graph.stepped().waiting == graph.fed().waiting,
{
    lemma_ran_shape(graph.fed(), graph.order.len());
}

/// What a caller does to a graph.
pub enum GraphEvent {
    /// Enqueues `value` on input endpoint `input`.
    Enqueue { input: usize, value: Fixed },
    /// Renders `samples` samples.
    Render { samples: usize },
    /// Takes one value from output endpoint `output`.
    Dequeue { output: usize },
}

impl<P: Processor> GraphView<P> {
    /// The graph after one event.
    pub open spec fn after_event(self, event: GraphEvent) -> GraphView<P> {
        match event {
            GraphEvent::Enqueue { input, value } => self.with_enqueued(input as int, value),
            GraphEvent::Render { samples } => self.rendered_for(samples as nat),
            GraphEvent::Dequeue { output } => self.with_dequeued(output as int),
        }
    }

    /// The graph after a run of events.
    pub open spec fn after_events(self, events: Seq<GraphEvent>) -> GraphView<P>
        decreases events.len(),
    {
        if events.len() == 0 {
            self
        } else {
            self.after_events(events.drop_last()).after_event(events.last())
        }
    }

    /// The values that a run of dequeues takes, in order: for each `Dequeue`
    /// among the events, what it returns.
    pub open spec fn taken(self, events: Seq<GraphEvent>) -> Seq<Option<Fixed>>
        decreases events.len(),
    {
        if events.len() == 0 {
            Seq::empty()
        } else {
            let before = self.after_events(events.drop_last());
            let taken = self.taken(events.drop_last());
            match events.last() {
                GraphEvent::Dequeue { output } => taken.push(
                    nth_dequeued(before.rendered[output as int], 0),
                ),
                _ => taken,
            }
        }
    }
}

/// Rendering is deterministic: two runs that start from equal graphs and see
/// the same enqueues, the same sample counts and the same dequeues end in
/// equal graphs and have handed out the same values.
pub proof fn lemma_render_deterministic<P: Processor>(
    first: GraphView<P>,
    second: GraphView<P>,
    events: Seq<GraphEvent>,
)
    requires
        first == second,
    ensures
        first.after_events(events) == second.after_events(events),
        first.taken(events) == second.taken(events),
{
}

/// Rendering `n` samples and then `m` more is rendering `n + m` samples.
pub proof fn lemma_render_adds<P: Processor>(graph: GraphView<P>, n: nat, m: nat)
    ensures
        graph.rendered_for(n).rendered_for(m) == graph.rendered_for(n + m),
    decreases m,
{
    if m > 0 {
        lemma_render_adds(graph, n, (m - 1) as nat);
        assert(graph.rendered_for(n + m) == graph.rendered_for((n + m - 1) as nat).stepped());
    }
}

/// Rendering keeps the topology, whatever the number of samples.
pub proof fn lemma_rendered_shape<P: Processor>(graph: GraphView<P>, samples: nat)
    requires
        forall|k: int| 0 <= k < graph.order.len() ==> (#[trigger] graph.order[k]) < graph.units.len(),
    ensures
        graph.same_shape(graph.rendered_for(samples)),
    decreases samples,
{
    if samples > 0 {
        lemma_rendered_shape(graph, (samples - 1) as nat);
        lemma_stepped_shape(graph.rendered_for((samples - 1) as nat));
    }
}

/// Taking in changes keeps the topology.
pub proof fn lemma_changes_shape<P: Processor>(graph: GraphView<P>, changes: Seq<Change>)
    requires
        graph.waiting.len() == graph.held.len(),
    ensures
        graph.same_shape(graph.with_changes(changes)),
        graph.with_changes(changes).held == graph.held,
        graph.with_changes(changes).rendered == graph.rendered,
        graph.with_changes(changes).units == graph.units,
    decreases changes.len(),
{
    if changes.len() > 0 {
        lemma_changes_shape(graph, changes.drop_last());
    }
}

/// A value on its way to an input endpoint.
#[derive(Clone, Copy, PartialEq, Eq, Structural, Debug)]
pub struct Change {
    /// The number of the input endpoint.
    pub input: usize,
    /// The value to enqueue there.
    pub value: Fixed,
}

impl<P: Processor> GraphView<P> {
    /// The graph after a change arrived: its value is enqueued on its
    /// endpoint; a change for an endpoint that does not exist is dropped.
    pub open spec fn with_change(self, change: Change) -> GraphView<P> {
        if change.input < self.held.len() {
            self.with_enqueued(change.input as int, change.value)
        } else {
            self
        }
    }

    /// The graph after a run of changes arrived, first to last.
    pub open spec fn with_changes(self, changes: Seq<Change>) -> GraphView<P>
        decreases changes.len(),
    {
        if changes.len() == 0 {
            self
        } else {
            self.with_changes(changes.drop_last()).with_change(changes.last())
        }
    }
}

impl<P: Processor> SignalGraph<P> {
    /// Takes in a run of changes, first to last.
    pub fn apply(&mut self, changes: &Vec<Change>)
        requires
            old(self).wf(),
        ensures
            final(self).wf(),
            final(self)@ == old(self)@.with_changes(changes@),
            old(self)@.same_shape(final(self)@),
    {
        proof {
            lemma_changes_shape(old(self)@, changes@);
        }
        let mut i: usize = 0;
        while i < changes.len()
            invariant
                i <= changes.len(),
                self.wf(),
                self@ == old(self)@.with_changes(changes@.take(i as int)),
            decreases changes.len() - i,
        {
            let change = changes[i];
            proof {
                assert(changes@.take(i + 1).drop_last() =~= changes@.take(i as int));
            }
            if change.input < self.input_count() {
                self.enqueue(change.input, change.value);
            }
            i = i + 1;
        }
        proof {
            assert(changes@.take(i as int) =~= changes@);
        }
    }
}

} // verus!
