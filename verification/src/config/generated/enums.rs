//! Enumerations of the configuration tables, stored as compact integer codes.

use crate::config::decoding::{ByteBuf, Decode, DecodeError, DecodeLimits};
use crate::config::decoding::buffer::spec_read_int;
use vstd::prelude::*;

verus! {

/// What a timeline action does.
#[derive(Debug, Clone, Copy, PartialEq, Eq, Structural)]
pub enum ActionKind {
    /// Ends the ability instance.
    EndAbility,
    /// Applies an effect to captured targets.
    ApplyEffect,
}

impl DeepView for ActionKind {
    type V = ActionKind;

    open spec fn deep_view(&self) -> ActionKind {
        *self
    }
}

impl ActionKind {
    /// The variant stored as `code`, or `None` for an unknown code.
    pub open spec fn from_code(code: i32) -> Option<ActionKind> {
        if code == 0 {
            Some(ActionKind::EndAbility)
        } else if code == 1 {
            Some(ActionKind::ApplyEffect)
        } else {
            None
        }
    }

    /// The variant name, as debug output shows it.
    pub open spec fn spec_label(self) -> Seq<char> {
        match self {
            ActionKind::EndAbility => "EndAbility"@,
            ActionKind::ApplyEffect => "ApplyEffect"@,
        }
    }

    /// Returns the variant name, as debug output shows it.
    pub fn label(&self) -> (s: &'static str)
        ensures
            s@ == self.spec_label(),
    {
        match self {
            ActionKind::EndAbility => "EndAbility",
            ActionKind::ApplyEffect => "ApplyEffect",
        }
    }
}

impl Decode for ActionKind {
    open spec fn spec_decode(data: Seq<u8>, offset: int, limits: DecodeLimits) -> Result<(ActionKind, int), int> {
        match spec_read_int(data, offset) {
            Err(at) => Err(at),
            Ok((code, end)) => match Self::from_code(code) {
                Some(v) => Ok((v, end)),
                None => Err(offset),
            },
        }
    }

    fn decode(buf: &mut ByteBuf) -> (res: Result<ActionKind, DecodeError>) {
        let offset = buf.offset();
        let code = buf.read_int()?;
        if code == 0 {
            Ok(ActionKind::EndAbility)
        } else if code == 1 {
            Ok(ActionKind::ApplyEffect)
        } else {
            Err(DecodeError::new(offset, "unknown enum value"))
        }
    }
}

/// Recipients of an effect applied by a timeline action.
#[derive(Debug, Clone, Copy, PartialEq, Eq, Structural)]
pub enum TargetScope {
    /// No recipient (only valid for non-effect actions).
    NoTarget,
    /// The primary captured target.
    Primary,
    /// Every captured target.
    AllCaptured,
}

impl DeepView for TargetScope {
    type V = TargetScope;

    open spec fn deep_view(&self) -> TargetScope {
        *self
    }
}

impl TargetScope {
    /// The variant stored as `code`, or `None` for an unknown code.
    pub open spec fn from_code(code: i32) -> Option<TargetScope> {
        if code == 0 {
            Some(TargetScope::NoTarget)
        } else if code == 1 {
            Some(TargetScope::Primary)
        } else if code == 2 {
            Some(TargetScope::AllCaptured)
        } else {
            None
        }
    }

    /// The variant name, as debug output shows it.
    pub open spec fn spec_label(self) -> Seq<char> {
        match self {
            TargetScope::NoTarget => "None"@,
            TargetScope::Primary => "Primary"@,
            TargetScope::AllCaptured => "AllCaptured"@,
        }
    }

    /// Returns the variant name, as debug output shows it.
    pub fn label(&self) -> (s: &'static str)
        ensures
            s@ == self.spec_label(),
    {
        match self {
            TargetScope::NoTarget => "None",
            TargetScope::Primary => "Primary",
            TargetScope::AllCaptured => "AllCaptured",
        }
    }
}

impl Decode for TargetScope {
    open spec fn spec_decode(data: Seq<u8>, offset: int, limits: DecodeLimits) -> Result<(TargetScope, int), int> {
        match spec_read_int(data, offset) {
            Err(at) => Err(at),
            Ok((code, end)) => match Self::from_code(code) {
                Some(v) => Ok((v, end)),
                None => Err(offset),
            },
        }
    }

    fn decode(buf: &mut ByteBuf) -> (res: Result<TargetScope, DecodeError>) {
        let offset = buf.offset();
        let code = buf.read_int()?;
        if code == 0 {
            Ok(TargetScope::NoTarget)
        } else if code == 1 {
            Ok(TargetScope::Primary)
        } else if code == 2 {
            Ok(TargetScope::AllCaptured)
        } else {
            Err(DecodeError::new(offset, "unknown enum value"))
        }
    }
}

/// How long an effect lasts.
#[derive(Debug, Clone, Copy, PartialEq, Eq, Structural)]
pub enum DurationKind {
    /// Applied once.
    Instant,
    /// Active until removed.
    Infinite,
    /// Active for a number of ticks.
    DurationTicks,
}

impl DeepView for DurationKind {
    type V = DurationKind;

    open spec fn deep_view(&self) -> DurationKind {
        *self
    }
}

impl DurationKind {
    /// The variant stored as `code`, or `None` for an unknown code.
    pub open spec fn from_code(code: i32) -> Option<DurationKind> {
        if code == 0 {
            Some(DurationKind::Instant)
        } else if code == 1 {
            Some(DurationKind::Infinite)
        } else if code == 2 {
            Some(DurationKind::DurationTicks)
        } else {
            None
        }
    }

    /// The variant name, as debug output shows it.
    pub open spec fn spec_label(self) -> Seq<char> {
        match self {
            DurationKind::Instant => "Instant"@,
            DurationKind::Infinite => "Infinite"@,
            DurationKind::DurationTicks => "DurationTicks"@,
        }
    }

    /// Returns the variant name, as debug output shows it.
    pub fn label(&self) -> (s: &'static str)
        ensures
            s@ == self.spec_label(),
    {
        match self {
            DurationKind::Instant => "Instant",
            DurationKind::Infinite => "Infinite",
            DurationKind::DurationTicks => "DurationTicks",
        }
    }
}

impl Decode for DurationKind {
    open spec fn spec_decode(data: Seq<u8>, offset: int, limits: DecodeLimits) -> Result<(DurationKind, int), int> {
        match spec_read_int(data, offset) {
            Err(at) => Err(at),
            Ok((code, end)) => match Self::from_code(code) {
                Some(v) => Ok((v, end)),
                None => Err(offset),
            },
        }
    }

    fn decode(buf: &mut ByteBuf) -> (res: Result<DurationKind, DecodeError>) {
        let offset = buf.offset();
        let code = buf.read_int()?;
        if code == 0 {
            Ok(DurationKind::Instant)
        } else if code == 1 {
            Ok(DurationKind::Infinite)
        } else if code == 2 {
            Ok(DurationKind::DurationTicks)
        } else {
            Err(DecodeError::new(offset, "unknown enum value"))
        }
    }
}

/// How a modifier magnitude depends on the level.
#[derive(Debug, Clone, Copy, PartialEq, Eq, Structural)]
pub enum MagnitudeKind {
    /// The base value at every level.
    Flat,
    /// The base value plus a per-level slope.
    LinearLevel,
}

impl DeepView for MagnitudeKind {
    type V = MagnitudeKind;

    open spec fn deep_view(&self) -> MagnitudeKind {
        *self
    }
}

impl MagnitudeKind {
    /// The variant stored as `code`, or `None` for an unknown code.
    pub open spec fn from_code(code: i32) -> Option<MagnitudeKind> {
        if code == 0 {
            Some(MagnitudeKind::Flat)
        } else if code == 1 {
            Some(MagnitudeKind::LinearLevel)
        } else {
            None
        }
    }

    /// The variant name, as debug output shows it.
    pub open spec fn spec_label(self) -> Seq<char> {
        match self {
            MagnitudeKind::Flat => "Flat"@,
            MagnitudeKind::LinearLevel => "LinearLevel"@,
        }
    }

    /// Returns the variant name, as debug output shows it.
    pub fn label(&self) -> (s: &'static str)
        ensures
            s@ == self.spec_label(),
    {
        match self {
            MagnitudeKind::Flat => "Flat",
            MagnitudeKind::LinearLevel => "LinearLevel",
        }
    }
}

impl Decode for MagnitudeKind {
    open spec fn spec_decode(data: Seq<u8>, offset: int, limits: DecodeLimits) -> Result<(MagnitudeKind, int), int> {
        match spec_read_int(data, offset) {
            Err(at) => Err(at),
            Ok((code, end)) => match Self::from_code(code) {
                Some(v) => Ok((v, end)),
                None => Err(offset),
            },
        }
    }

    fn decode(buf: &mut ByteBuf) -> (res: Result<MagnitudeKind, DecodeError>) {
        let offset = buf.offset();
        let code = buf.read_int()?;
        if code == 0 {
            Ok(MagnitudeKind::Flat)
        } else if code == 1 {
            Ok(MagnitudeKind::LinearLevel)
        } else {
            Err(DecodeError::new(offset, "unknown enum value"))
        }
    }
}

/// How a modifier combines with its attribute.
#[derive(Debug, Clone, Copy, PartialEq, Eq, Structural)]
pub enum ModifierOperation {
    /// Adds the magnitude.
    Add,
    /// Adds a percentage.
    PercentAdd,
    /// Multiplies by the magnitude.
    Multiply,
    /// Replaces the value.
    Override,
}

impl DeepView for ModifierOperation {
    type V = ModifierOperation;

    open spec fn deep_view(&self) -> ModifierOperation {
        *self
    }
}

impl ModifierOperation {
    /// The variant stored as `code`, or `None` for an unknown code.
    pub open spec fn from_code(code: i32) -> Option<ModifierOperation> {
        if code == 0 {
            Some(ModifierOperation::Add)
        } else if code == 1 {
            Some(ModifierOperation::PercentAdd)
        } else if code == 2 {
            Some(ModifierOperation::Multiply)
        } else if code == 3 {
            Some(ModifierOperation::Override)
        } else {
            None
        }
    }

    /// The variant name, as debug output shows it.
    pub open spec fn spec_label(self) -> Seq<char> {
        match self {
            ModifierOperation::Add => "Add"@,
            ModifierOperation::PercentAdd => "PercentAdd"@,
            ModifierOperation::Multiply => "Multiply"@,
            ModifierOperation::Override => "Override"@,
        }
    }

    /// Returns the variant name, as debug output shows it.
    pub fn label(&self) -> (s: &'static str)
        ensures
            s@ == self.spec_label(),
    {
        match self {
            ModifierOperation::Add => "Add",
            ModifierOperation::PercentAdd => "PercentAdd",
            ModifierOperation::Multiply => "Multiply",
            ModifierOperation::Override => "Override",
        }
    }
}

impl Decode for ModifierOperation {
    open spec fn spec_decode(data: Seq<u8>, offset: int, limits: DecodeLimits) -> Result<(ModifierOperation, int), int> {
        match spec_read_int(data, offset) {
            Err(at) => Err(at),
            Ok((code, end)) => match Self::from_code(code) {
                Some(v) => Ok((v, end)),
                None => Err(offset),
            },
        }
    }

    fn decode(buf: &mut ByteBuf) -> (res: Result<ModifierOperation, DecodeError>) {
        let offset = buf.offset();
        let code = buf.read_int()?;
        if code == 0 {
            Ok(ModifierOperation::Add)
        } else if code == 1 {
            Ok(ModifierOperation::PercentAdd)
        } else if code == 2 {
            Ok(ModifierOperation::Multiply)
        } else if code == 3 {
            Ok(ModifierOperation::Override)
        } else {
            Err(DecodeError::new(offset, "unknown enum value"))
        }
    }
}

/// The initial target selection shape.
#[derive(Debug, Clone, Copy, PartialEq, Eq, Structural)]
pub enum SelectionKind {
    /// The source itself.
    SelfTarget,
    /// An explicitly supplied entity.
    ExplicitEntity,
    /// Entities within a radius.
    Sphere,
    /// Entities within a radius and half angle.
    Cone,
}

impl DeepView for SelectionKind {
    type V = SelectionKind;

    open spec fn deep_view(&self) -> SelectionKind {
        *self
    }
}

impl SelectionKind {
    /// The variant stored as `code`, or `None` for an unknown code.
    pub open spec fn from_code(code: i32) -> Option<SelectionKind> {
        if code == 0 {
            Some(SelectionKind::SelfTarget)
        } else if code == 1 {
            Some(SelectionKind::ExplicitEntity)
        } else if code == 2 {
            Some(SelectionKind::Sphere)
        } else if code == 3 {
            Some(SelectionKind::Cone)
        } else {
            None
        }
    }

    /// The variant name, as debug output shows it.
    pub open spec fn spec_label(self) -> Seq<char> {
        match self {
            SelectionKind::SelfTarget => "SelfTarget"@,
            SelectionKind::ExplicitEntity => "ExplicitEntity"@,
            SelectionKind::Sphere => "Sphere"@,
            SelectionKind::Cone => "Cone"@,
        }
    }

    /// Returns the variant name, as debug output shows it.
    pub fn label(&self) -> (s: &'static str)
        ensures
            s@ == self.spec_label(),
    {
        match self {
            SelectionKind::SelfTarget => "SelfTarget",
            SelectionKind::ExplicitEntity => "ExplicitEntity",
            SelectionKind::Sphere => "Sphere",
            SelectionKind::Cone => "Cone",
        }
    }
}

impl Decode for SelectionKind {
    open spec fn spec_decode(data: Seq<u8>, offset: int, limits: DecodeLimits) -> Result<(SelectionKind, int), int> {
        match spec_read_int(data, offset) {
            Err(at) => Err(at),
            Ok((code, end)) => match Self::from_code(code) {
                Some(v) => Ok((v, end)),
                None => Err(offset),
            },
        }
    }

    fn decode(buf: &mut ByteBuf) -> (res: Result<SelectionKind, DecodeError>) {
        let offset = buf.offset();
        let code = buf.read_int()?;
        if code == 0 {
            Ok(SelectionKind::SelfTarget)
        } else if code == 1 {
            Ok(SelectionKind::ExplicitEntity)
        } else if code == 2 {
            Ok(SelectionKind::Sphere)
        } else if code == 3 {
            Ok(SelectionKind::Cone)
        } else {
            Err(DecodeError::new(offset, "unknown enum value"))
        }
    }
}

/// Distance ordering of selected targets.
#[derive(Debug, Clone, Copy, PartialEq, Eq, Structural)]
pub enum SortOrder {
    /// Selection order, shown as `None`.
    Unsorted,
    /// Nearest first.
    Nearest,
    /// Farthest first.
    Farthest,
}

impl DeepView for SortOrder {
    type V = SortOrder;

    open spec fn deep_view(&self) -> SortOrder {
        *self
    }
}

impl SortOrder {
    /// The variant stored as `code`, or `None` for an unknown code.
    pub open spec fn from_code(code: i32) -> Option<SortOrder> {
        if code == 0 {
            Some(SortOrder::Unsorted)
        } else if code == 1 {
            Some(SortOrder::Nearest)
        } else if code == 2 {
            Some(SortOrder::Farthest)
        } else {
            None
        }
    }

    /// The variant name, as debug output shows it.
    pub open spec fn spec_label(self) -> Seq<char> {
        match self {
            SortOrder::Unsorted => "None"@,
            SortOrder::Nearest => "Nearest"@,
            SortOrder::Farthest => "Farthest"@,
        }
    }

    /// Returns the variant name, as debug output shows it.
    pub fn label(&self) -> (s: &'static str)
        ensures
            s@ == self.spec_label(),
    {
        match self {
            SortOrder::Unsorted => "None",
            SortOrder::Nearest => "Nearest",
            SortOrder::Farthest => "Farthest",
        }
    }
}

impl Decode for SortOrder {
    open spec fn spec_decode(data: Seq<u8>, offset: int, limits: DecodeLimits) -> Result<(SortOrder, int), int> {
        match spec_read_int(data, offset) {
            Err(at) => Err(at),
            Ok((code, end)) => match Self::from_code(code) {
                Some(v) => Ok((v, end)),
                None => Err(offset),
            },
        }
    }

    fn decode(buf: &mut ByteBuf) -> (res: Result<SortOrder, DecodeError>) {
        let offset = buf.offset();
        let code = buf.read_int()?;
        if code == 0 {
            Ok(SortOrder::Unsorted)
        } else if code == 1 {
            Ok(SortOrder::Nearest)
        } else if code == 2 {
            Ok(SortOrder::Farthest)
        } else {
            Err(DecodeError::new(offset, "unknown enum value"))
        }
    }
}

/// Storage region of an attribute.
#[derive(Debug, Clone, Copy, PartialEq, Eq, Structural)]
pub enum AttributeRegion {
    /// Frequently accessed attributes.
    Hot,
    /// Rarely accessed attributes.
    Cold,
}

impl DeepView for AttributeRegion {
    type V = AttributeRegion;

    open spec fn deep_view(&self) -> AttributeRegion {
        *self
    }
}

impl AttributeRegion {
    /// The variant stored as `code`, or `None` for an unknown code.
    pub open spec fn from_code(code: i32) -> Option<AttributeRegion> {
        if code == 0 {
            Some(AttributeRegion::Hot)
        } else if code == 1 {
            Some(AttributeRegion::Cold)
        } else {
            None
        }
    }

    /// The variant name, as debug output shows it.
    pub open spec fn spec_label(self) -> Seq<char> {
        match self {
            AttributeRegion::Hot => "Hot"@,
            AttributeRegion::Cold => "Cold"@,
        }
    }

    /// Returns the variant name, as debug output shows it.
    pub fn label(&self) -> (s: &'static str)
        ensures
            s@ == self.spec_label(),
    {
        match self {
            AttributeRegion::Hot => "Hot",
            AttributeRegion::Cold => "Cold",
        }
    }
}

impl Decode for AttributeRegion {
    open spec fn spec_decode(data: Seq<u8>, offset: int, limits: DecodeLimits) -> Result<(AttributeRegion, int), int> {
        match spec_read_int(data, offset) {
            Err(at) => Err(at),
            Ok((code, end)) => match Self::from_code(code) {
                Some(v) => Ok((v, end)),
                None => Err(offset),
            },
        }
    }

    fn decode(buf: &mut ByteBuf) -> (res: Result<AttributeRegion, DecodeError>) {
        let offset = buf.offset();
        let code = buf.read_int()?;
        if code == 0 {
            Ok(AttributeRegion::Hot)
        } else if code == 1 {
            Ok(AttributeRegion::Cold)
        } else {
            Err(DecodeError::new(offset, "unknown enum value"))
        }
    }
}

} // verus!
