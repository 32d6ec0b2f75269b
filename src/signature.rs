//! The signature of an activity, as the code generator sees it: the arrows
//! that enter a node, sorted into inputs, controls and mechanisms, and the
//! output arrows that leave it.
use vstd::prelude::*;
use crate::elements::{ArrowType, NodeId};
use crate::model::{Arrow, SadtDiagram};

verus! {

/// One parameter of an activity: the arrow's label and its type.
#[derive(Clone, Debug)]
pub struct Port {
    pub label: String,
    pub arrow_type: ArrowType,
}

/// The parameters of one activity, grouped by role, each group in the order
/// of the diagram's arrows.
#[derive(Clone, Debug)]
pub struct ActivitySignature {
    pub inputs: Vec<Port>,
    pub outputs: Vec<Port>,
    pub controls: Vec<Port>,
    pub mechanisms: Vec<Port>,
}

/// The text a port shows for an arrow: its label, or `data` without one.
pub open spec fn port_label(a: Arrow) -> Seq<char> {
    match a.label {
        Some(l) => l@,
        None => "data"@,
    }
}

/// Arrow `a` enters node `n` with type `t`.
pub open spec fn enters_as(a: Arrow, n: NodeId, t: ArrowType) -> bool {
    a.target.node_id == n && a.arrow_type == t
}

/// Arrow `a` is an output of node `n`: it leaves `n`, does not enter it, and
/// has type Output.
pub open spec fn is_output_of(a: Arrow, n: NodeId) -> bool {
    a.target.node_id != n && a.source.node_id == n && a.arrow_type == ArrowType::Output
}

pub open spec fn entering(n: NodeId, t: ArrowType) -> spec_fn(Arrow) -> bool {
    |a: Arrow| enters_as(a, n, t)
}

pub open spec fn leaving(n: NodeId) -> spec_fn(Arrow) -> bool {
    |a: Arrow| is_output_of(a, n)
}

/// The ports stand for the arrows, one for one and in order.
pub open spec fn ports_for(ports: Seq<Port>, arrows: Seq<Arrow>) -> bool {
    &&& ports.len() == arrows.len()
    &&& forall|i: int|
        0 <= i < ports.len() ==> (#[trigger] ports[i]).label@ == port_label(arrows[i])
            && ports[i].arrow_type == arrows[i].arrow_type
}

/// Name used in generated code for the type of an arrow.
pub open spec fn type_placeholder_of(t: ArrowType) -> Seq<char> {
    match t {
        ArrowType::Input => "InputData"@,
        ArrowType::Output => "OutputData"@,
        ArrowType::Control => "ControlParam"@,
        ArrowType::Mechanism => "MechanismResource"@,
    }
}

/// Name used in generated code for the type of an arrow.
pub fn type_placeholder(t: ArrowType) -> (r: &'static str)
    ensures
        r@ == type_placeholder_of(t),
{
    match t {
        ArrowType::Input => "InputData",
        ArrowType::Output => "OutputData",
        ArrowType::Control => "ControlParam",
        ArrowType::Mechanism => "MechanismResource",
    }
}

fn port_of(a: &Arrow) -> (p: Port)
    ensures
        p.label@ == port_label(*a),
        p.arrow_type == a.arrow_type,
{
    let label = match &a.label {
        Some(l) => l.clone(),
        None => String::from_str("data"),
    };
    Port { label, arrow_type: a.arrow_type }
}

proof fn lemma_ports_push(ports: Seq<Port>, arrows: Seq<Arrow>, p: Port, a: Arrow)
    requires
        ports_for(ports, arrows),
        p.label@ == port_label(a),
        p.arrow_type == a.arrow_type,
    ensures
        ports_for(ports.push(p), arrows.push(a)),
{
    assert forall|i: int| 0 <= i < ports.len() + 1 implies (#[trigger] ports.push(p)[i]).label@
        == port_label(arrows.push(a)[i]) && ports.push(p)[i].arrow_type == arrows.push(
        a,
    )[i].arrow_type by {
        if i < ports.len() {
            assert(ports.push(p)[i] == ports[i]);
            assert(arrows.push(a)[i] == arrows[i]);
        }
    }
}

/// The signature of node `node_id`: for each arrow of the diagram, in order,
/// one port in `inputs`, `controls` or `mechanisms` when it enters the node
/// with that type, and one in `outputs` when it is an output of the node.
pub fn activity_signature(diagram: &SadtDiagram, node_id: NodeId) -> (sig: ActivitySignature)
    ensures
        ports_for(sig.inputs@, diagram.arrows@.filter(entering(node_id, ArrowType::Input))),
        ports_for(sig.controls@, diagram.arrows@.filter(entering(node_id, ArrowType::Control))),
        ports_for(
            sig.mechanisms@,
            diagram.arrows@.filter(entering(node_id, ArrowType::Mechanism)),
        ),
        ports_for(sig.outputs@, diagram.arrows@.filter(leaving(node_id))),
{
    let ghost arrows = diagram.arrows@;
    let ghost fi = entering(node_id, ArrowType::Input);
    let ghost fc = entering(node_id, ArrowType::Control);
    let ghost fm = entering(node_id, ArrowType::Mechanism);
    let ghost fo = leaving(node_id);
    let mut inputs: Vec<Port> = Vec::new();
    let mut outputs: Vec<Port> = Vec::new();
    let mut controls: Vec<Port> = Vec::new();
    let mut mechanisms: Vec<Port> = Vec::new();
    let mut j: usize = 0;
    proof {
        reveal(Seq::filter);
        assert(arrows.subrange(0, 0) =~= Seq::<Arrow>::empty());
    }
    while j < diagram.arrows.len()
        invariant
            arrows == diagram.arrows@,
            0 <= j <= arrows.len(),
            fi == entering(node_id, ArrowType::Input),
            fc == entering(node_id, ArrowType::Control),
            fm == entering(node_id, ArrowType::Mechanism),
            fo == leaving(node_id),
            ports_for(inputs@, arrows.subrange(0, j as int).filter(fi)),
            ports_for(controls@, arrows.subrange(0, j as int).filter(fc)),
            ports_for(mechanisms@, arrows.subrange(0, j as int).filter(fm)),
            ports_for(outputs@, arrows.subrange(0, j as int).filter(fo)),
        decreases arrows.len() - j,
    {
        let a = &diagram.arrows[j];
        let ghost prefix = arrows.subrange(0, j as int);
        proof {
            assert(arrows.subrange(0, j + 1) =~= prefix.push(*a));
            prefix.lemma_filter_push(*a, fi);
            prefix.lemma_filter_push(*a, fc);
            prefix.lemma_filter_push(*a, fm);
            prefix.lemma_filter_push(*a, fo);
        }
        if a.target.node_id == node_id {
            match a.arrow_type {
                ArrowType::Input => {
                    let p = port_of(a);
                    proof {
                        lemma_ports_push(inputs@, prefix.filter(fi), p, *a);
                    }
                    inputs.push(p);
                },
                ArrowType::Control => {
                    let p = port_of(a);
                    proof {
                        lemma_ports_push(controls@, prefix.filter(fc), p, *a);
                    }
                    controls.push(p);
                },
                ArrowType::Mechanism => {
                    let p = port_of(a);
                    proof {
                        lemma_ports_push(mechanisms@, prefix.filter(fm), p, *a);
                    }
                    mechanisms.push(p);
                },
                ArrowType::Output => {},
            }
        } else if a.source.node_id == node_id && a.arrow_type == ArrowType::Output {
            let p = port_of(a);
            proof {
                lemma_ports_push(outputs@, prefix.filter(fo), p, *a);
            }
            outputs.push(p);
        }
        j += 1;
    }
    proof {
        assert(arrows.subrange(0, arrows.len() as int) =~= arrows);
    }
    ActivitySignature { inputs, outputs, controls, mechanisms }
}

} // verus!
