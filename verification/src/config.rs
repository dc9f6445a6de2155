//! The configuration record, and the rule by which an update is merged into
//! the stored one.

use vstd::prelude::*;

verus! {

/// Bit pattern of the default opacity, one half.
pub const DEFAULT_ALPHA_BITS: u32 = 0x3F00_0000;

/// Bit pattern of the highest opacity that is stored without the opaque
/// override: the single-precision number nearest to nine tenths.
pub const MAX_ALPHA_BITS: u32 = 0x3F66_6666;

/// Bit pattern of positive infinity. The patterns above it, up to the sign
/// bit, are the positive NaNs.
pub const INFINITY_BITS: u32 = 0x7F80_0000;

/// The default corner radius, in pixels.
pub const DEFAULT_RADIUS: u32 = 0;

/// An opacity, held as the bit pattern of an IEEE 754 single-precision number
/// (0.0 transparent, 1.0 opaque). The library orders and copies opacities; it
/// never does arithmetic on them.
#[derive(Clone, Copy, Debug, PartialEq, Eq, Structural)]
pub struct Opacity {
    pub bits: u32,
}

impl Opacity {
    /// Whether this opacity, read as a number, is greater than the cap. That
    /// holds of the positive numbers above the cap, infinity included, and of
    /// nothing else: not of a negative number, and not of a NaN, which is
    /// greater than nothing.
    pub open spec fn above_cap(self) -> bool {
        MAX_ALPHA_BITS < self.bits <= INFINITY_BITS
    }

    /// This opacity, lowered to the cap where it is above it.
    pub open spec fn capped(self) -> Opacity {
        if self.above_cap() {
            Opacity { bits: MAX_ALPHA_BITS }
        } else {
            self
        }
    }

    /// The opacity with the given bit pattern.
    pub fn from_bits(bits: u32) -> (opacity: Opacity)
        ensures
            opacity.bits == bits,
    {
        Opacity { bits }
    }

    /// The bit pattern.
    pub fn to_bits(self) -> (bits: u32)
        ensures
            bits == self.bits,
    {
        self.bits
    }

    /// Lowers the opacity to the cap where it is above it.
    pub fn clamp_to_cap(self) -> (out: Opacity)
        ensures
            out == self.capped(),
            !out.above_cap(),
    {
        if MAX_ALPHA_BITS < self.bits && self.bits <= INFINITY_BITS {
            Opacity { bits: MAX_ALPHA_BITS }
        } else {
            self
        }
    }
}

/// The control verbs.
#[derive(Clone, Copy, Debug, PartialEq, Eq, Structural)]
pub enum DimlandCommands {
    /// Stops the running instance.
    Stop,
}

/// The configuration record. As an update, a field that is `None` was not
/// given; as the stored record, `alpha` and `radius` hold the current values.
#[derive(Clone, Debug, PartialEq, Eq)]
pub struct DimlandArgs {
    /// Opacity of the overlay.
    pub alpha: Option<Opacity>,
    /// In an update: store `alpha` as given, even above the cap.
    pub allow_opaque: bool,
    /// Corner radius, in pixels.
    pub radius: Option<u32>,
    /// Name of the one output to control; `None` for all of them.
    pub output: Option<String>,
    /// Set on the process that was started to stay in the background.
    pub detached: bool,
    /// The control verb, if one was given.
    pub command: Option<DimlandCommands>,
}

/// A configuration record as a mathematical value.
pub struct ArgsModel {
    pub alpha: Option<Opacity>,
    pub allow_opaque: bool,
    pub radius: Option<u32>,
    pub output: Option<Seq<char>>,
    pub detached: bool,
    pub command: Option<DimlandCommands>,
}

/// The text of an optional string.
pub open spec fn text_of(s: Option<String>) -> Option<Seq<char>> {
    match s {
        Some(t) => Some(t@),
        None => None,
    }
}

impl View for DimlandArgs {
    type V = ArgsModel;

    open spec fn view(&self) -> ArgsModel {
        ArgsModel {
            alpha: self.alpha,
            allow_opaque: self.allow_opaque,
            radius: self.radius,
            output: text_of(self.output),
            detached: self.detached,
            command: self.command,
        }
    }
}

/// The record that a fresh store holds: the default opacity and radius, every
/// output, no command.
pub open spec fn initial_args() -> ArgsModel {
    ArgsModel {
        alpha: Some(Opacity { bits: DEFAULT_ALPHA_BITS }),
        allow_opaque: false,
        radius: Some(DEFAULT_RADIUS),
        output: None,
        detached: false,
        command: None,
    }
}

/// The opacity that an update asks to store: as given under the opaque
/// override, else lowered to the cap.
pub open spec fn requested_alpha(update: ArgsModel) -> Option<Opacity> {
    match update.alpha {
        Some(a) => Some(
            if update.allow_opaque {
                a
            } else {
                a.capped()
            },
        ),
        None => None,
    }
}

/// The stored record after `update` is merged into `stored`. Opacity and
/// radius are replaced where the update gives them and kept where it does
/// not. Output, command and the detached flag are always the update's. The
/// stored override flag is not touched: the override acts on the update that
/// carries it.
pub open spec fn merged(stored: ArgsModel, update: ArgsModel) -> ArgsModel {
    ArgsModel {
        alpha: if update.alpha is Some {
            requested_alpha(update)
        } else {
            stored.alpha
        },
        allow_opaque: stored.allow_opaque,
        radius: if update.radius is Some {
            update.radius
        } else {
            stored.radius
        },
        output: update.output,
        detached: update.detached,
        command: update.command,
    }
}

/// The opacity in force under a record.
pub open spec fn effective_alpha(args: ArgsModel) -> Opacity {
    match args.alpha {
        Some(a) => a,
        None => Opacity { bits: DEFAULT_ALPHA_BITS },
    }
}

/// The radius in force under a record.
pub open spec fn effective_radius(args: ArgsModel) -> u32 {
    match args.radius {
        Some(r) => r,
        None => DEFAULT_RADIUS,
    }
}

impl Default for DimlandArgs {
    /// The record of a fresh store.
    fn default() -> (args: DimlandArgs)
        ensures
            args@ == initial_args(),
    {
        DimlandArgs {
            alpha: Some(Opacity { bits: DEFAULT_ALPHA_BITS }),
            allow_opaque: false,
            radius: Some(DEFAULT_RADIUS),
            output: None,
            detached: false,
            command: None,
        }
    }
}

/// A copy of an optional string.
pub fn copy_text(s: &Option<String>) -> (out: Option<String>)
    ensures
        text_of(out) == text_of(*s),
{
    match s {
        Some(t) => Some(t.clone()),
        None => None,
    }
}

/// Merges `args` into the stored record.
pub fn set_args(store: &mut DimlandArgs, args: DimlandArgs)
    ensures
        final(store)@ == merged(old(store)@, args@),
{
    if let Some(alpha) = args.alpha {
        if args.allow_opaque {
            store.alpha = Some(alpha);
        } else {
            store.alpha = Some(alpha.clamp_to_cap());
        }
    }
    if let Some(radius) = args.radius {
        store.radius = Some(radius);
    }
    store.output = args.output;
    store.command = args.command;
    store.detached = args.detached;
}

/// A snapshot of the stored record.
pub fn get_args(store: &DimlandArgs) -> (snapshot: DimlandArgs)
    ensures
        snapshot@ == store@,
{
    DimlandArgs {
        alpha: store.alpha,
        allow_opaque: store.allow_opaque,
        radius: store.radius,
        output: copy_text(&store.output),
        detached: store.detached,
        command: store.command,
    }
}

impl DimlandArgs {
    /// The opacity in force: the stored one, or the default where none is
    /// stored.
    pub fn alpha_or_default(&self) -> (alpha: Opacity)
        ensures
            alpha == effective_alpha(self@),
    {
        match self.alpha {
            Some(a) => a,
            None => Opacity { bits: DEFAULT_ALPHA_BITS },
        }
    }

    /// The radius in force: the stored one, or the default where none is
    /// stored.
    pub fn radius_or_default(&self) -> (radius: u32)
        ensures
            radius == effective_radius(self@),
    {
        match self.radius {
            Some(r) => r,
            None => DEFAULT_RADIUS,
        }
    }
}

/// Absent fields survive a merge, and what is stored never exceeds the cap
/// unless an update carried the override.
pub proof fn lemma_merge_keeps_and_caps(stored: ArgsModel, update: ArgsModel)
    ensures
        update.alpha is None ==> merged(stored, update).alpha == stored.alpha,
        update.radius is None ==> merged(stored, update).radius == stored.radius,
        update.radius is Some ==> merged(stored, update).radius == update.radius,
        update.alpha is Some && update.allow_opaque ==> merged(stored, update).alpha
            == update.alpha,
        update.alpha is Some && !update.allow_opaque ==> !merged(
            stored,
            update,
        ).alpha->0.above_cap(),
        !update.allow_opaque && stored.alpha is Some && !stored.alpha->0.above_cap() ==> !merged(
            stored,
            update,
        ).alpha->0.above_cap(),
{
}

} // verus!
