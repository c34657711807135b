//! The capture pipeline as a state machine.
//!
//! A capture is a fixed chain of system operations. The pipeline names the
//! next one as an [`Action`]; whoever drives it carries the action out and
//! answers with an [`Event`]. On the first failure the pipeline stops asking
//! for work and only asks for what is held to be given back, newest first.
//!
//! The chain: start the image session; take the desktop surface; make a
//! compatible surface; allocate the pixel buffer; bind it; copy the pixels.
//! The pixel buffer then changes owner: the surfaces used for copying are
//! given back and only the buffer stays. It is wrapped as an image, the
//! encoders are listed and one is chosen by the file's extension, the image
//! is saved, and everything left is given back, the session last.

use vstd::prelude::*;
use crate::encoder::{resolution, resolve_encoder, EncoderDescriptor};
use crate::error::CaptureError;
use crate::filename::{extension_of, follows_dot, plain, plain_extension};
use crate::guard::{without_last, Resource, ScopeStack};
use crate::region::Region;

verus! {

/// Where the pipeline stands: which answer it waits for.
#[derive(Clone, Copy, Debug, PartialEq, Eq, Structural)]
pub enum Stage {
    Starting,
    AcquiringScreen,
    CreatingMemory,
    Allocating,
    Binding,
    Copying,
    /// The copy is done; the capture gives back what only it needed.
    Returning,
    Wrapping,
    Measuring,
    Reserving,
    Listing,
    /// An encoder is chosen; the list of encoders is given back.
    Dropping,
    Saving,
    /// Everything still held is given back.
    Unwinding,
    Finished,
}

/// One system operation for the driver to carry out.
#[derive(Clone, Copy, Debug, PartialEq, Eq)]
pub enum Action {
    /// Start the image subsystem.
    StartSession,
    /// Take a reference to the whole-desktop drawing surface.
    AcquireScreenSurface,
    /// Create a drawing surface compatible with the desktop's.
    CreateMemorySurface,
    /// Allocate a bitmap of this size with pixel memory in this format, with
    /// the colour characteristics of the desktop surface.
    AllocatePixelBuffer { width: i32, height: i32, bits_per_pixel: u16, bottom_up: bool },
    /// Make the pixel buffer the drawing target of the memory surface, and
    /// keep the earlier target.
    BindPixelBuffer,
    /// Copy `width` by `height` pixels from the desktop surface at `(x, y)`
    /// to the pixel buffer at `(0, 0)`; with `layered`, layered windows too.
    CopyPixels { x: i32, y: i32, width: i32, height: i32, layered: bool },
    /// Wrap the pixel buffer as an image that an encoder can write.
    WrapImage,
    /// Ask how many encoders there are and how much memory their list takes.
    MeasureEncoders,
    /// Allocate `size` bytes for the list of encoders.
    ReserveEncoderList { size: u32 },
    /// Read the list of `count` encoders into the `size` bytes reserved.
    ListEncoders { count: u32, size: u32 },
    /// Write the image to the file with this encoder and no encoder
    /// parameters.
    SaveImage { encoder: u128 },
    /// Give this resource back.
    Release(Resource),
    /// Nothing is left to do; this is how the capture ended.
    Finish(Result<(), CaptureError>),
}

/// What came of the action that the pipeline asked for last.
#[derive(Clone, Debug, PartialEq, Eq)]
pub enum Event {
    /// The operation succeeded.
    Done,
    /// The operation failed.
    Failed,
    /// The answer to [`Action::MeasureEncoders`].
    EncoderSpace { count: u32, size: u32 },
    /// The answer to [`Action::ListEncoders`], in the subsystem's order.
    Encoders(Vec<EncoderDescriptor>),
}

/// The pipeline as a mathematical value.
pub struct PipelineView {
    pub stage: Stage,
    /// The resources held under this pipeline's guard, oldest first.
    pub held: Seq<Resource>,
    /// The pixel buffer is on its way from the capture to its next owner.
    pub carried: bool,
    /// The first failure, if there was one.
    pub error: Option<CaptureError>,
    pub region: Region,
    /// The extension of the file to write, if its name has one.
    pub extension: Option<Seq<char>>,
    pub encoder: u128,
    pub count: u32,
    pub size: u32,
}

/// Bits per pixel of every pixel buffer.
pub const BITS_PER_PIXEL: u16 = 32;

/// The pipeline before its first action. A region that cannot be captured
/// ends it at once, before anything is asked of the system.
pub open spec fn initial(region: Region, extension: Option<Seq<char>>) -> PipelineView {
    PipelineView {
        stage: if region.valid() {
            Stage::Starting
        } else {
            Stage::Finished
        },
        held: Seq::empty(),
        carried: false,
        error: if region.valid() {
            None
        } else {
            Some(CaptureError::InvalidArgument)
        },
        region,
        extension,
        encoder: 0,
        count: 0,
        size: 0,
    }
}

/// How the capture ends in state `v`.
pub open spec fn outcome(v: PipelineView) -> Result<(), CaptureError> {
    match v.error {
        Some(error) => Err(error),
        None => Ok(()),
    }
}

/// The action that state `v` asks for.
pub open spec fn pending(v: PipelineView) -> Action {
    match v.stage {
        Stage::Starting => Action::StartSession,
        Stage::AcquiringScreen => Action::AcquireScreenSurface,
        Stage::CreatingMemory => Action::CreateMemorySurface,
        Stage::Allocating => Action::AllocatePixelBuffer {
            width: v.region.width,
            height: v.region.height,
            bits_per_pixel: BITS_PER_PIXEL,
            bottom_up: true,
        },
        Stage::Binding => Action::BindPixelBuffer,
        Stage::Copying => Action::CopyPixels {
            x: v.region.x,
            y: v.region.y,
            width: v.region.width,
            height: v.region.height,
            layered: true,
        },
        Stage::Wrapping => Action::WrapImage,
        Stage::Measuring => Action::MeasureEncoders,
        Stage::Reserving => Action::ReserveEncoderList { size: v.size },
        Stage::Listing => Action::ListEncoders { count: v.count, size: v.size },
        Stage::Saving => Action::SaveImage { encoder: v.encoder },
        Stage::Returning | Stage::Dropping | Stage::Unwinding => if v.held.len() > 0 {
            Action::Release(v.held.last())
        } else {
            Action::Finish(outcome(v))
        },
        Stage::Finished => Action::Finish(outcome(v)),
    }
}

/// State `v` asks for nothing more.
pub open spec fn finished(v: PipelineView) -> bool {
    pending(v) is Finish
}

/// `v` after a failure: the error is kept, and what is held is given back.
pub open spec fn failing(v: PipelineView, error: CaptureError) -> PipelineView {
    PipelineView {
        error: Some(error),
        stage: if v.held.len() == 0 {
            Stage::Finished
        } else {
            Stage::Unwinding
        },
        ..v
    }
}

/// `v` with `resource` taken, going on at `stage`.
pub open spec fn holding(v: PipelineView, resource: Resource, stage: Stage) -> PipelineView {
    PipelineView { held: v.held.push(resource), stage, ..v }
}

/// `v` after an operation that takes `resource` if it succeeds and fails
/// with `error` otherwise. Only [`Event::Done`] reports success.
pub open spec fn taking(
    v: PipelineView,
    event: Event,
    resource: Resource,
    stage: Stage,
    error: CaptureError,
) -> PipelineView {
    if event is Done {
        holding(v, resource, stage)
    } else {
        failing(v, error)
    }
}

/// How many resources stay held when a stage that gives resources back is
/// over.
pub open spec fn floor(stage: Stage) -> nat {
    match stage {
        Stage::Returning => 1,
        Stage::Dropping => 3,
        _ => 0,
    }
}

/// `v` after the newest resource has been given back. When the stage's floor
/// is reached the pipeline goes on: after the capture the pixel buffer gets
/// its new owner and is wrapped; after the list of encoders is dropped the
/// image is saved; after unwinding the pipeline is finished.
pub open spec fn letting_go(v: PipelineView) -> PipelineView {
    if v.held.len() == 0 {
        PipelineView { stage: Stage::Finished, ..v }
    } else {
        let held = v.held.drop_last();
        if held.len() > floor(v.stage) {
            PipelineView { held, ..v }
        } else {
            match v.stage {
                Stage::Returning => PipelineView {
                    held: if v.carried {
                        held.push(Resource::PixelBuffer)
                    } else {
                        held
                    },
                    carried: false,
                    stage: Stage::Wrapping,
                    ..v
                },
                Stage::Dropping => PipelineView { held, stage: Stage::Saving, ..v },
                _ => PipelineView { held, stage: Stage::Finished, ..v },
            }
        }
    }
}

/// The encoder for the file, from the list of installed encoders.
pub open spec fn chosen(encoders: Seq<EncoderDescriptor>, extension: Option<Seq<char>>) -> Result<
    u128,
    CaptureError,
> {
    match extension {
        Some(e) => resolution(encoders, e),
        None => Err(CaptureError::InvalidArgument),
    }
}

/// The state that follows `v` when the pending action is answered by
/// `event`.
///
/// An operation that takes a resource succeeds only with [`Event::Done`];
/// measuring succeeds only with [`Event::EncoderSpace`], listing only with
/// [`Event::Encoders`]; any other answer counts as that operation's failure.
/// A release cannot fail: whatever the answer, the resource is gone.
pub open spec fn next(v: PipelineView, event: Event) -> PipelineView {
    match v.stage {
        Stage::Starting => taking(
            v,
            event,
            Resource::Session,
            Stage::AcquiringScreen,
            CaptureError::SessionFailed,
        ),
        Stage::AcquiringScreen => taking(
            v,
            event,
            Resource::ScreenSurface,
            Stage::CreatingMemory,
            CaptureError::SurfaceUnavailable,
        ),
        Stage::CreatingMemory => taking(
            v,
            event,
            Resource::MemorySurface,
            Stage::Allocating,
            CaptureError::SurfaceUnavailable,
        ),
        Stage::Allocating => taking(
            v,
            event,
            Resource::PixelBuffer,
            Stage::Binding,
            CaptureError::AllocationFailed,
        ),
        Stage::Binding => taking(
            v,
            event,
            Resource::Binding,
            Stage::Copying,
            CaptureError::BindFailed,
        ),
        Stage::Copying => if event is Done {
            PipelineView {
                held: without_last(v.held, Resource::PixelBuffer),
                carried: v.held.contains(Resource::PixelBuffer),
                stage: Stage::Returning,
                ..v
            }
        } else {
            failing(v, CaptureError::CopyFailed)
        },
        Stage::Wrapping => if event is Done {
            let wrapped = holding(v, Resource::Image, Stage::Measuring);
            if v.extension is None {
                failing(wrapped, CaptureError::InvalidArgument)
            } else {
                wrapped
            }
        } else {
            failing(v, CaptureError::WrapFailed)
        },
        Stage::Measuring => match event {
            Event::EncoderSpace { count, size } => if count == 0 || size == 0 {
                failing(v, CaptureError::NoEncodersInstalled)
            } else {
                PipelineView { count, size, stage: Stage::Reserving, ..v }
            },
            _ => failing(v, CaptureError::EncoderEnumerationFailed),
        },
        Stage::Reserving => taking(
            v,
            event,
            Resource::EncoderList,
            Stage::Listing,
            CaptureError::EncoderEnumerationFailed,
        ),
        Stage::Listing => match event {
            Event::Encoders(encoders) => match chosen(encoders@, v.extension) {
                Ok(encoder) => PipelineView { encoder, stage: Stage::Dropping, ..v },
                Err(error) => failing(v, error),
            },
            _ => failing(v, CaptureError::EncoderEnumerationFailed),
        },
        Stage::Saving => if event is Done {
            PipelineView {
                stage: if v.held.len() == 0 {
                    Stage::Finished
                } else {
                    Stage::Unwinding
                },
                ..v
            }
        } else {
            failing(v, CaptureError::SaveFailed)
        },
        Stage::Returning | Stage::Dropping | Stage::Unwinding => letting_go(v),
        Stage::Finished => v,
    }
}

/// One capture of one region into one file, from its first action to its
/// last.
pub struct Pipeline {
    stage: Stage,
    guards: ScopeStack,
    carried: bool,
    error: Option<CaptureError>,
    region: Region,
    extension: Option<String>,
    encoder: u128,
    count: u32,
    size: u32,
}

impl View for Pipeline {
    type V = PipelineView;

    closed spec fn view(&self) -> PipelineView {
        PipelineView {
            stage: self.stage,
            held: self.guards@,
            carried: self.carried,
            error: self.error,
            region: self.region,
            extension: match self.extension {
                Some(e) => Some(e@),
                None => None,
            },
            encoder: self.encoder,
            count: self.count,
            size: self.size,
        }
    }
}

impl Pipeline {
    /// A pipeline that captures `region` into a file with this extension
    /// (`None` for a file name without one). Nothing has been asked of the
    /// system yet; [`Pipeline::pending`] gives the first action.
    pub fn new(region: Region, extension: Option<String>) -> (pipeline: Pipeline)
        ensures
            pipeline@ == initial(
                region,
                match extension {
                    Some(e) => Some(e@),
                    None => None,
                },
            ),
    {
        let valid = region.is_valid();
        Pipeline {
            stage: if valid {
                Stage::Starting
            } else {
                Stage::Finished
            },
            guards: ScopeStack::new(),
            carried: false,
            error: if valid {
                None
            } else {
                Some(CaptureError::InvalidArgument)
            },
            region,
            extension,
            encoder: 0,
            count: 0,
            size: 0,
        }
    }

    /// A pipeline that captures `region` into the file called `name`. The
    /// file's extension is what the platform's path rules make of `name`; it
    /// decides the encoder as in [`Pipeline::new`].
    pub fn for_file(region: Region, name: &str) -> (pipeline: Pipeline)
        ensures
            pipeline@ == initial(region, pipeline@.extension),
            plain(name@) ==> pipeline@.extension == plain_extension(name@),
            pipeline@.extension matches Some(e) ==> !e.contains('.') && exists|dot: int|
                follows_dot(name@, e, dot),
            !name@.contains('.') ==> pipeline@.extension is None,
    {
        Pipeline::new(region, extension_of(name))
    }

    /// The action that the pipeline waits to have answered.
    pub fn pending(&self) -> (action: Action)
        ensures
            action == pending(self@),
    {
        match self.stage {
            Stage::Starting => Action::StartSession,
            Stage::AcquiringScreen => Action::AcquireScreenSurface,
            Stage::CreatingMemory => Action::CreateMemorySurface,
            Stage::Allocating => Action::AllocatePixelBuffer {
                width: self.region.width,
                height: self.region.height,
                bits_per_pixel: BITS_PER_PIXEL,
                bottom_up: true,
            },
            Stage::Binding => Action::BindPixelBuffer,
            Stage::Copying => Action::CopyPixels {
                x: self.region.x,
                y: self.region.y,
                width: self.region.width,
                height: self.region.height,
                layered: true,
            },
            Stage::Wrapping => Action::WrapImage,
            Stage::Measuring => Action::MeasureEncoders,
            Stage::Reserving => Action::ReserveEncoderList { size: self.size },
            Stage::Listing => Action::ListEncoders { count: self.count, size: self.size },
            Stage::Saving => Action::SaveImage { encoder: self.encoder },
            Stage::Returning | Stage::Dropping | Stage::Unwinding => match self.guards.top() {
                Some(resource) => Action::Release(resource),
                None => Action::Finish(self.result()),
            },
            Stage::Finished => Action::Finish(self.result()),
        }
    }

    /// Whether the capture is over.
    pub fn is_finished(&self) -> (done: bool)
        ensures
            done == finished(self@),
    {
        match self.pending() {
            Action::Finish(_) => true,
            _ => false,
        }
    }

    /// How the capture ends if nothing else fails: with the first failure, if
    /// there was one.
    pub fn result(&self) -> (result: Result<(), CaptureError>)
        ensures
            result == outcome(self@),
    {
        match self.error {
            Some(error) => Err(error),
            None => Ok(()),
        }
    }

    /// The resources that are held now, oldest first.
    pub fn held(&self) -> (stack: &ScopeStack)
        ensures
            stack@ == self@.held,
    {
        &self.guards
    }

    fn fail(&mut self, error: CaptureError)
        ensures
            final(self)@ == failing(old(self)@, error),
    {
        self.error = Some(error);
        self.stage = if self.guards.depth() == 0 {
            Stage::Finished
        } else {
            Stage::Unwinding
        };
    }

    fn take(&mut self, event: &Event, resource: Resource, stage: Stage, error: CaptureError)
        ensures
            final(self)@ == taking(old(self)@, *event, resource, stage, error),
    {
        match event {
            Event::Done => {
                self.guards.acquire(resource);
                self.stage = stage;
            },
            _ => {
                self.fail(error);
            },
        }
    }

    fn let_go(&mut self)
        ensures
            final(self)@ == letting_go(old(self)@),
    {
        match self.guards.release() {
            None => {
                self.stage = Stage::Finished;
            },
            Some(_) => {
                let floor: usize = match self.stage {
                    Stage::Returning => 1,
                    Stage::Dropping => 3,
                    _ => 0,
                };
                if self.guards.depth() > floor {
                } else {
                    match self.stage {
                        Stage::Returning => {
                            if self.carried {
                                self.guards.acquire(Resource::PixelBuffer);
                            }
                            self.carried = false;
                            self.stage = Stage::Wrapping;
                        },
                        Stage::Dropping => {
                            self.stage = Stage::Saving;
                        },
                        _ => {
                            self.stage = Stage::Finished;
                        },
                    }
                }
            },
        }
    }

    /// The part of a step that belongs to capturing the surface.
    fn capture_step(&mut self, event: &Event)
        requires
            old(self)@.stage is AcquiringScreen || old(self)@.stage is CreatingMemory || old(
                self,
            )@.stage is Allocating || old(self)@.stage is Binding || old(self)@.stage is Copying,
        ensures
            final(self)@ == next(old(self)@, *event),
    {
        match self.stage {
            Stage::AcquiringScreen => self.take(
                event,
                Resource::ScreenSurface,
                Stage::CreatingMemory,
                CaptureError::SurfaceUnavailable,
            ),
            Stage::CreatingMemory => self.take(
                event,
                Resource::MemorySurface,
                Stage::Allocating,
                CaptureError::SurfaceUnavailable,
            ),
            Stage::Allocating => self.take(
                event,
                Resource::PixelBuffer,
                Stage::Binding,
                CaptureError::AllocationFailed,
            ),
            Stage::Binding => self.take(
                event,
                Resource::Binding,
                Stage::Copying,
                CaptureError::BindFailed,
            ),
            _ => match event {
                Event::Done => {
                    self.carried = self.guards.disarm(Resource::PixelBuffer);
                    self.stage = Stage::Returning;
                },
                _ => {
                    self.fail(CaptureError::CopyFailed);
                },
            },
        }
    }

    /// The part of a step that belongs to choosing the encoder.
    fn encoder_step(&mut self, event: &Event)
        requires
            old(self)@.stage is Measuring || old(self)@.stage is Reserving || old(self)@.stage
                is Listing,
        ensures
            final(self)@ == next(old(self)@, *event),
    {
        match self.stage {
            Stage::Measuring => match event {
                Event::EncoderSpace { count, size } => {
                    if *count == 0 || *size == 0 {
                        self.fail(CaptureError::NoEncodersInstalled);
                    } else {
                        self.count = *count;
                        self.size = *size;
                        self.stage = Stage::Reserving;
                    }
                },
                _ => {
                    self.fail(CaptureError::EncoderEnumerationFailed);
                },
            },
            Stage::Reserving => self.take(
                event,
                Resource::EncoderList,
                Stage::Listing,
                CaptureError::EncoderEnumerationFailed,
            ),
            _ => match event {
                Event::Encoders(encoders) => {
                    let choice = match &self.extension {
                        Some(e) => resolve_encoder(encoders, e.as_str()),
                        None => Err(CaptureError::InvalidArgument),
                    };
                    match choice {
                        Ok(encoder) => {
                            self.encoder = encoder;
                            self.stage = Stage::Dropping;
                        },
                        Err(error) => {
                            self.fail(error);
                        },
                    }
                },
                _ => {
                    self.fail(CaptureError::EncoderEnumerationFailed);
                },
            },
        }
    }

    /// The part of a step that belongs to wrapping and saving the image.
    fn save_step(&mut self, event: &Event)
        requires
            old(self)@.stage is Wrapping || old(self)@.stage is Saving,
        ensures
            final(self)@ == next(old(self)@, *event),
    {
        match self.stage {
            Stage::Wrapping => match event {
                Event::Done => {
                    self.guards.acquire(Resource::Image);
                    self.stage = Stage::Measuring;
                    if self.extension.is_none() {
                        self.fail(CaptureError::InvalidArgument);
                    }
                },
                _ => {
                    self.fail(CaptureError::WrapFailed);
                },
            },
            _ => match event {
                Event::Done => {
                    self.stage = if self.guards.depth() == 0 {
                        Stage::Finished
                    } else {
                        Stage::Unwinding
                    };
                },
                _ => {
                    self.fail(CaptureError::SaveFailed);
                },
            },
        }
    }

    /// Takes the answer to the pending action and gives the next action.
    ///
    /// After a failure the next actions are the releases of what is held,
    /// newest first, and then [`Action::Finish`] with that failure. Once
    /// finished, the pipeline stays finished whatever it is told.
    pub fn step(&mut self, event: Event) -> (action: Action)
        ensures
            final(self)@ == next(old(self)@, event),
            action == pending(final(self)@),
    {
        match self.stage {
            Stage::Starting => self.take(
                &event,
                Resource::Session,
                Stage::AcquiringScreen,
                CaptureError::SessionFailed,
            ),
            Stage::AcquiringScreen | Stage::CreatingMemory | Stage::Allocating | Stage::Binding
            | Stage::Copying => self.capture_step(&event),
            Stage::Wrapping | Stage::Saving => self.save_step(&event),
            Stage::Measuring | Stage::Reserving | Stage::Listing => self.encoder_step(&event),
            Stage::Returning | Stage::Dropping | Stage::Unwinding => self.let_go(),
            Stage::Finished => {},
        }
        self.pending()
    }
}

} // verus!
