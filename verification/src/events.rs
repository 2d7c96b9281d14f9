//! The asynchronous events the pipeline produces for its consumer, and
//! the pure decisions behind them: what a worker publishes for a finished
//! request, what discovery emits per probed task, what a file-change
//! notification turns into, and how modal key input advances.

use vstd::prelude::*;
use crate::decode::{
    decode_full, decode_thumbnail, full_decode_ok, full_dims, full_frame_count, full_frame_delay,
    full_frame_pixels, resampled, DecodeError,
};
use crate::discovery::DiscoveryTask;
use crate::format::{identify_format, identify_spec};
use crate::image_item::{fitted_dims, ImageItem, LoadedImage, ThumbnailData};
use crate::loader::LoadRequest;
use crate::probe::{probe_image, probe_spec, ProbeError};
use crate::strutil::str_eq_str;

verus! {

/// Everything the pipeline reports back to the interactive consumer,
/// delivery-order independent.
pub enum AppEvent {
    /// Total count of recognized files, announced before any metadata.
    InitialCount(usize),
    /// Metadata for the file at the given stable index.
    MetadataLoaded(usize, ImageItem),
    /// Probing the file at the given stable index failed.
    MetadataError(usize, ProbeError),
    /// No more discovery results will arrive.
    DiscoveryComplete,
    /// A full image finished decoding.
    ImagePixelsLoaded(String, LoadedImage),
    /// A thumbnail finished decoding.
    ThumbnailLoaded(String, ThumbnailData),
    /// A load request failed; the consumer may re-request on user action.
    LoadError(String, DecodeError),
    /// A queued request was discarded before a worker picked it up.
    LoadCancelled(String),
    /// A watched file changed and probes anew as this metadata.
    FileChanged(ImageItem),
    /// A watched file was removed or stopped probing as an image.
    FileDeleted(String),
}

/// The path a request is about.
pub open spec fn request_path(req: LoadRequest) -> Seq<char> {
    match req {
        LoadRequest::LoadImage(p, _) => p@,
        LoadRequest::LoadThumbnail(p, _, _) => p@,
    }
}

/// The format a request was identified with.
pub open spec fn request_format(req: LoadRequest) -> crate::format::ImageFormat {
    match req {
        LoadRequest::LoadImage(_, f) => f,
        LoadRequest::LoadThumbnail(_, f, _) => f,
    }
}

/// Carry out one unit of load work on the file's bytes and decide the
/// event to publish: the decoded payload on success, a per-path failure
/// event on error — never a crash, so the worker survives to take the
/// next request. Vector documents rasterize against the given font set,
/// with resources resolved relative to the file's directory; their pixel
/// content is therefore not pinned by the contract, only its shape.
pub fn process_request(
    req: &LoadRequest,
    data: &[u8],
    fonts: &resvg::usvg::fontdb::Database,
) -> (r: AppEvent)
    ensures
        full_decode_ok(data@, request_format(*req)) <==> !(r is LoadError),
        r is LoadError ==> r->LoadError_0@ == request_path(*req),
        req is LoadImage && full_decode_ok(data@, request_format(*req)) ==> {
            let fmt = request_format(*req);
            &&& r is ImagePixelsLoaded
            &&& r->ImagePixelsLoaded_0@ == request_path(*req)
            &&& r->ImagePixelsLoaded_1.wf()
            &&& r->ImagePixelsLoaded_1.width == full_dims(data@, fmt).0
            &&& r->ImagePixelsLoaded_1.height == full_dims(data@, fmt).1
            &&& r->ImagePixelsLoaded_1.frames@.len() == full_frame_count(data@, fmt)
            &&& forall|i: int|
                0 <= i < r->ImagePixelsLoaded_1.frames@.len() ==> (
                #[trigger] r->ImagePixelsLoaded_1.frames@[i]).delay_ms == full_frame_delay(
                    data@,
                    fmt,
                    i,
                )
            &&& !(fmt is Svg) ==> forall|i: int|
                0 <= i < r->ImagePixelsLoaded_1.frames@.len() ==> (
                #[trigger] r->ImagePixelsLoaded_1.frames@[i]).pixels@ == full_frame_pixels(
                    data@,
                    fmt,
                    i,
                )
        },
        req is LoadThumbnail && full_decode_ok(data@, request_format(*req)) ==> {
            let fmt = request_format(*req);
            let target = req->LoadThumbnail_2;
            let dims = full_dims(data@, fmt);
            &&& r is ThumbnailLoaded
            &&& r->ThumbnailLoaded_0@ == request_path(*req)
            &&& r->ThumbnailLoaded_1.wf()
            &&& r->ThumbnailLoaded_1.width == fitted_dims(
                dims.0 as int,
                dims.1 as int,
                target as int,
            ).0
            &&& r->ThumbnailLoaded_1.height == fitted_dims(
                dims.0 as int,
                dims.1 as int,
                target as int,
            ).1
            &&& !(fmt is Svg) ==> r->ThumbnailLoaded_1.pixels@ == resampled(
                full_frame_pixels(data@, fmt, 0),
                dims.0,
                dims.1,
                r->ThumbnailLoaded_1.width,
                r->ThumbnailLoaded_1.height,
            )
        },
{
    match req {
        LoadRequest::LoadImage(path, format) => {
            let dir = crate::script_handler::parent_component(path.as_str());
            match decode_full(data, *format, fonts, Some(dir.as_str())) {
                Ok(img) => AppEvent::ImagePixelsLoaded(path.clone(), img),
                Err(e) => AppEvent::LoadError(path.clone(), e),
            }
        },
        LoadRequest::LoadThumbnail(path, format, size) => {
            let dir = crate::script_handler::parent_component(path.as_str());
            match decode_thumbnail(data, *format, *size, fonts, Some(dir.as_str())) {
                Ok(thumb) => AppEvent::ThumbnailLoaded(path.clone(), thumb),
                Err(e) => AppEvent::LoadError(path.clone(), e),
            }
        },
    }
}

/// Probe one discovery task against the file's bytes and decide the event
/// to deliver under the task's stable index: the metadata record on
/// success, a per-index error on failure — never a panic, and never an
/// aborted run for the other tasks.
pub fn probe_task(task: &DiscoveryTask, data: &[u8]) -> (r: AppEvent)
    ensures
        probe_spec(data@, task.format) is Ok <==> r is MetadataLoaded,
        r is MetadataLoaded ==> {
            let item = r->MetadataLoaded_1;
            &&& r->MetadataLoaded_0 == task.index
            &&& item.path@ == task.path@
            &&& item.format == task.format
            &&& Ok::<_, ProbeError>((item.width, item.height)) == probe_spec(data@, task.format)
        },
        r is MetadataError ==> r->MetadataError_0 == task.index && Err::<(u32, u32), _>(
            r->MetadataError_1,
        ) == probe_spec(data@, task.format),
{
    match probe_image(data, task.format) {
        Ok((width, height)) => AppEvent::MetadataLoaded(
            task.index,
            ImageItem { path: task.path.clone(), width, height, format: task.format },
        ),
        Err(e) => AppEvent::MetadataError(task.index, e),
    }
}

/// Decide what a debounced file-change notification becomes. A vanished
/// file is a deletion; a changed file that still identifies and probes is
/// fresh metadata; one that identifies but no longer probes is treated as
/// deleted; one that no longer identifies as an image is ignored.
pub fn change_event(path: &str, content: Option<&Vec<u8>>) -> (r: Option<AppEvent>)
    ensures
        content is None ==> r is Some && r->0 is FileDeleted && r->0->FileDeleted_0@ == path@,
        content is Some ==> {
            let data = content->0@;
            match identify_spec(data) {
                None => r is None,
                Some(fmt) => {
                    match probe_spec(data, fmt) {
                        Ok(dims) => {
                            &&& r is Some
                            &&& r->0 is FileChanged
                            &&& r->0->FileChanged_0.path@ == path@
                            &&& r->0->FileChanged_0.width == dims.0
                            &&& r->0->FileChanged_0.height == dims.1
                            &&& r->0->FileChanged_0.format == fmt
                        },
                        Err(_) => r is Some && r->0 is FileDeleted && r->0->FileDeleted_0@
                            == path@,
                    }
                },
            }
        },
{
    match content {
        None => Some(AppEvent::FileDeleted(path.to_owned())),
        Some(data) => {
            match identify_format(data.as_slice()) {
                Err(_) => None,
                Ok(format) => {
                    match probe_image(data.as_slice(), format) {
                        Ok((width, height)) => Some(
                            AppEvent::FileChanged(
                                ImageItem { path: path.to_owned(), width, height, format },
                            ),
                        ),
                        Err(_) => Some(AppEvent::FileDeleted(path.to_owned())),
                    }
                },
            }
        },
    }
}

/// What modal key handling is waiting for.
pub enum InputMode {
    Normal,
    Filtering,
    WaitingForHandler,
    AwaitingTarget(String),
}

/// A decision to run a configured handler: under which key it was
/// configured, and whether it takes the marked files or the current one.
pub struct HandlerInvocation {
    pub key: String,
    pub on_marked: bool,
}

/// Advance the modal input state on a key press: a prefix wait takes a
/// known handler key and either runs it at once (nothing marked) or asks
/// for a target; a target wait runs the handler on the current file or
/// the marked set; anything else falls back to normal input.
pub fn handle_modal_input(mode: &InputMode, key: &str, handler_known: bool, has_marked: bool) -> (r:
    (InputMode, Option<HandlerInvocation>))
    ensures
        mode is WaitingForHandler && handler_known && !has_marked ==> r.0 is Normal && r.1 is Some
            && r.1->0.key@ == key@ && r.1->0.on_marked == false,
        mode is WaitingForHandler && handler_known && has_marked ==> r.0 is AwaitingTarget
            && r.0->AwaitingTarget_0@ == key@ && r.1 is None,
        mode is WaitingForHandler && !handler_known ==> r.0 is Normal && r.1 is None,
        mode is AwaitingTarget ==> {
            &&& r.0 is Normal
            &&& (key@ == "c"@ ==> r.1 is Some && r.1->0.key@ == mode->AwaitingTarget_0@
                && r.1->0.on_marked == false)
            &&& (key@ == "m"@ ==> r.1 is Some && r.1->0.key@ == mode->AwaitingTarget_0@
                && r.1->0.on_marked == true)
            &&& (key@ != "c"@ && key@ != "m"@ ==> r.1 is None)
        },
        mode is Normal ==> r.0 is Normal && r.1 is None,
        mode is Filtering ==> r.0 is Filtering && r.1 is None,
{
    proof {
        reveal_strlit("c");
        reveal_strlit("m");
        assert("c"@ != "m"@) by {
            assert("c"@[0] == 'c');
            assert("m"@[0] == 'm');
        }
    }
    match mode {
        InputMode::WaitingForHandler => {
            if handler_known {
                if !has_marked {
                    (
                        InputMode::Normal,
                        Some(HandlerInvocation { key: key.to_owned(), on_marked: false }),
                    )
                } else {
                    (InputMode::AwaitingTarget(key.to_owned()), None)
                }
            } else {
                (InputMode::Normal, None)
            }
        },
        InputMode::AwaitingTarget(handler_key) => {
            if str_eq_str(key, "c") {
                (
                    InputMode::Normal,
                    Some(HandlerInvocation { key: handler_key.clone(), on_marked: false }),
                )
            } else if str_eq_str(key, "m") {
                (
                    InputMode::Normal,
                    Some(HandlerInvocation { key: handler_key.clone(), on_marked: true }),
                )
            } else {
                (InputMode::Normal, None)
            }
        },
        InputMode::Normal => (InputMode::Normal, None),
        InputMode::Filtering => (InputMode::Filtering, None),
    }
}

} // verus!
