//! What the library reads of an operation's error and of the reader's
//! refusal: the variant, a degenerate result's reason, the kinds of an
//! unsupported pair, an internal fault's name. From these the
//! differential names a refusal and the histogram finds the cycle it
//! blocks.

use vstd::prelude::*;
use crate::text::{push_str, string_of};

verus! {

/// Why an operation's result is degenerate, by the variant of the
/// kernel's `Reason`.
#[derive(Debug, Clone, Copy, PartialEq, Eq, Structural)]
pub enum Reason {
    BlendTooLarge,
    TangentChain,
    VertexBlend,
    DirectionNotNormal,
    EllipticRevolve,
    NotSolid,
    TangentContact,
    NonManifold,
    BesideSingularity,
    Empty,
    ZeroThickness,
    NonFinite,
    NotPositive,
    NoEdges,
    RepeatedEdge,
    EdgeNotInBody,
    NotProjectable,
    DegenerateEdge,
    ProjectionCollapses,
    NotPlanar,
    OutOfDomain,
    Singular,
    ProfileCrossesAxis,
    AxisNotInProfilePlane,
    AngleAboveTurn,
    SpindleTorus,
}

/// The variant's name, as its `Debug` starts.
pub open spec fn reason_name(r: Reason) -> Seq<char> {
    match r {
        Reason::BlendTooLarge => "BlendTooLarge"@,
        Reason::TangentChain => "TangentChain"@,
        Reason::VertexBlend => "VertexBlend"@,
        Reason::DirectionNotNormal => "DirectionNotNormal"@,
        Reason::EllipticRevolve => "EllipticRevolve"@,
        Reason::NotSolid => "NotSolid"@,
        Reason::TangentContact => "TangentContact"@,
        Reason::NonManifold => "NonManifold"@,
        Reason::BesideSingularity => "BesideSingularity"@,
        Reason::Empty => "Empty"@,
        Reason::ZeroThickness => "ZeroThickness"@,
        Reason::NonFinite => "NonFinite"@,
        Reason::NotPositive => "NotPositive"@,
        Reason::NoEdges => "NoEdges"@,
        Reason::RepeatedEdge => "RepeatedEdge"@,
        Reason::EdgeNotInBody => "EdgeNotInBody"@,
        Reason::NotProjectable => "NotProjectable"@,
        Reason::DegenerateEdge => "DegenerateEdge"@,
        Reason::ProjectionCollapses => "ProjectionCollapses"@,
        Reason::NotPlanar => "NotPlanar"@,
        Reason::OutOfDomain => "OutOfDomain"@,
        Reason::Singular => "Singular"@,
        Reason::ProfileCrossesAxis => "ProfileCrossesAxis"@,
        Reason::AxisNotInProfilePlane => "AxisNotInProfilePlane"@,
        Reason::AngleAboveTurn => "AngleAboveTurn"@,
        Reason::SpindleTorus => "SpindleTorus"@,
    }
}

impl Reason {
    /// The variant's name, as its `Debug` starts.
    pub fn name(self) -> (s: &'static str)
        ensures
            s@ == reason_name(self),
    {
        match self {
            Reason::BlendTooLarge => "BlendTooLarge",
            Reason::TangentChain => "TangentChain",
            Reason::VertexBlend => "VertexBlend",
            Reason::DirectionNotNormal => "DirectionNotNormal",
            Reason::EllipticRevolve => "EllipticRevolve",
            Reason::NotSolid => "NotSolid",
            Reason::TangentContact => "TangentContact",
            Reason::NonManifold => "NonManifold",
            Reason::BesideSingularity => "BesideSingularity",
            Reason::Empty => "Empty",
            Reason::ZeroThickness => "ZeroThickness",
            Reason::NonFinite => "NonFinite",
            Reason::NotPositive => "NotPositive",
            Reason::NoEdges => "NoEdges",
            Reason::RepeatedEdge => "RepeatedEdge",
            Reason::EdgeNotInBody => "EdgeNotInBody",
            Reason::NotProjectable => "NotProjectable",
            Reason::DegenerateEdge => "DegenerateEdge",
            Reason::ProjectionCollapses => "ProjectionCollapses",
            Reason::NotPlanar => "NotPlanar",
            Reason::OutOfDomain => "OutOfDomain",
            Reason::Singular => "Singular",
            Reason::ProfileCrossesAxis => "ProfileCrossesAxis",
            Reason::AxisNotInProfilePlane => "AxisNotInProfilePlane",
            Reason::AngleAboveTurn => "AngleAboveTurn",
            Reason::SpindleTorus => "SpindleTorus",
        }
    }
}

/// The kind of one entity of an unsupported pair: how it prints (`plane`,
/// `NURBS`, …), and whether it is a NURBS surface or curve.
#[derive(Debug, Clone, PartialEq, Eq)]
pub struct EntityKind {
    /// How the kind prints.
    pub name: String,
    /// A NURBS surface or a NURBS curve.
    pub nurbs: bool,
}

/// An operation's error, as much of it as the naming and the cycle table
/// read.
#[derive(Debug, Clone, PartialEq, Eq)]
pub enum OpFailure {
    /// The result is degenerate, for this reason.
    Degenerate { reason: Reason },
    /// The pair of entities has no intersection the kernel supports.
    Unsupported { a: EntityKind, b: EntityKind },
    /// An operation's input fails the checker.
    InvalidInput,
    /// A sweep's profile is refused.
    Profile,
    /// A tolerance is out of range.
    Tolerance,
    /// An entity named is not in the model.
    NotFound,
    /// A kernel bug it caught and typed: the fault's variant name.
    Internal { fault: String },
}

/// The name a typed refusal is counted under: the reason of a degenerate
/// result, the kinds of an unsupported pair, the fault of an internal
/// error, the variant otherwise.
pub open spec fn refusal_name(e: OpFailure) -> Seq<char> {
    match e {
        OpFailure::Degenerate { reason } => "Degenerate("@ + reason_name(reason) + ")"@,
        OpFailure::Unsupported { a, b } => "Unsupported("@ + a.name@ + " × "@ + b.name@ + ")"@,
        OpFailure::Internal { fault } => "Internal("@ + fault@ + ")"@,
        OpFailure::InvalidInput => "InvalidInput"@,
        OpFailure::Profile => "Profile"@,
        OpFailure::Tolerance => "Tolerance"@,
        OpFailure::NotFound => "NotFound"@,
    }
}

/// The name a typed refusal is counted under: `Degenerate(TangentContact)`,
/// `Unsupported(plane × NURBS)`, `Internal(Split)`, or the variant.
/// Without the entities or numbers, so one cause is one row.
pub fn refusal(e: &OpFailure) -> (s: String)
    ensures
        s@ == refusal_name(*e),
{
    let mut out: Vec<char> = Vec::new();
    match e {
        OpFailure::Degenerate { reason } => {
            push_str(&mut out, "Degenerate(");
            push_str(&mut out, reason.name());
            push_str(&mut out, ")");
        },
        OpFailure::Unsupported { a, b } => {
            push_str(&mut out, "Unsupported(");
            push_str(&mut out, a.name.as_str());
            push_str(&mut out, " × ");
            push_str(&mut out, b.name.as_str());
            push_str(&mut out, ")");
        },
        OpFailure::Internal { fault } => {
            push_str(&mut out, "Internal(");
            push_str(&mut out, fault.as_str());
            push_str(&mut out, ")");
        },
        OpFailure::InvalidInput => push_str(&mut out, "InvalidInput"),
        OpFailure::Profile => push_str(&mut out, "Profile"),
        OpFailure::Tolerance => push_str(&mut out, "Tolerance"),
        OpFailure::NotFound => push_str(&mut out, "NotFound"),
    }
    string_of(out.as_slice())
}

/// The reader's refusal of a solid, by its kind; an unsupported entity
/// with the name the reader gives it.
#[derive(Debug, Clone, PartialEq, Eq)]
pub enum ReadRefusal {
    NoLengthUnit,
    Malformed,
    Offset,
    Composite,
    CurveBounded,
    DegenerateTorus,
    SelfIntersectingTorus,
    Unsupported { name: String },
    Degenerate,
    Topology,
    Pcurve,
    OpenLoop,
    Gap,
    Invalid,
}

} // verus!
