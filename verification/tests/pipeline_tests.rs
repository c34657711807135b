use gdip_snapshot::encoder::{EncoderDescriptor, ExtensionList};
use gdip_snapshot::error::CaptureError;
use gdip_snapshot::filename::extension_of;
use gdip_snapshot::guard::Resource;
use gdip_snapshot::pipeline::{Action, Event, Pipeline};
use gdip_snapshot::region::{resolve, CaptureMode, Region};

const BMP: u128 = 0x557CF400_1A04_11D3_9A73_0000F81EF32E;
const JPEG: u128 = 0x557CF401_1A04_11D3_9A73_0000F81EF32E;
const PNG: u128 = 0x557CF406_1A04_11D3_9A73_0000F81EF32E;

fn installed() -> Vec<EncoderDescriptor> {
    let encoder = |identity: u128, patterns: &str| EncoderDescriptor {
        identity,
        extensions: ExtensionList::Patterns(patterns.to_string()),
    };
    vec![
        encoder(BMP, "*.BMP;*.DIB;*.RLE"),
        encoder(JPEG, "*.JPG;*.JPEG;*.JPE;*.JFIF"),
        encoder(PNG, "*.PNG"),
    ]
}

/// What a simulated system did during one run.
struct Run {
    actions: Vec<Action>,
    acquired: Vec<Resource>,
    released: Vec<Resource>,
    result: Result<(), CaptureError>,
}

/// Which resource an action takes when it succeeds.
fn taken_by(action: &Action) -> Option<Resource> {
    match action {
        Action::StartSession => Some(Resource::Session),
        Action::AcquireScreenSurface => Some(Resource::ScreenSurface),
        Action::CreateMemorySurface => Some(Resource::MemorySurface),
        Action::AllocatePixelBuffer { .. } => Some(Resource::PixelBuffer),
        Action::BindPixelBuffer => Some(Resource::Binding),
        Action::WrapImage => Some(Resource::Image),
        Action::ReserveEncoderList { .. } => Some(Resource::EncoderList),
        _ => None,
    }
}

/// Drives `pipeline` against a system in which the operation with index
/// `fail_at` (counting the actions from zero) fails and every other succeeds.
fn drive(mut pipeline: Pipeline, encoders: Vec<EncoderDescriptor>, fail_at: Option<usize>) -> Run {
    let mut run =
        Run { actions: Vec::new(), acquired: Vec::new(), released: Vec::new(), result: Ok(()) };
    let mut action = pipeline.pending();
    loop {
        assert!(run.actions.len() <= 18, "the pipeline did not finish");
        if let Action::Finish(result) = action {
            assert!(pipeline.is_finished());
            assert_eq!(pipeline.result(), result);
            assert_eq!(pipeline.held().depth(), 0);
            run.result = result;
            return run;
        }
        assert!(!pipeline.is_finished());
        let index: usize = run.actions.len();
        run.actions.push(action);
        let event = if let Action::Release(resource) = action {
            assert_eq!(pipeline.held().top(), Some(resource));
            run.released.push(resource);
            Event::Done
        } else if fail_at == Some(index) {
            Event::Failed
        } else {
            if let Some(resource) = taken_by(&action) {
                run.acquired.push(resource);
            }
            match action {
                Action::MeasureEncoders => {
                    Event::EncoderSpace { count: encoders.len() as u32, size: 1040 }
                }
                Action::ListEncoders { .. } => Event::Encoders(encoders.clone()),
                _ => Event::Done,
            }
        };
        action = pipeline.step(event);
        assert_eq!(action, pipeline.pending());
    }
}

fn region() -> Region {
    Region { x: 0, y: 0, width: 100, height: 50 }
}

fn sorted(list: &Vec<Resource>) -> Vec<String> {
    let mut names: Vec<String> = list.iter().map(|r| format!("{:?}", r)).collect();
    names.sort();
    names
}

#[test]
fn explicit_rect_is_captured_and_saved_as_png() {
    let region = resolve(
        CaptureMode::ExplicitRect { x: 0, y: 0, width: 100, height: 50 },
        &vec![],
    )
    .unwrap();
    let run = drive(Pipeline::new(region, Some("png".to_string())), installed(), None);
    assert_eq!(run.result, Ok(()));
    assert_eq!(
        run.actions,
        vec![
            Action::StartSession,
            Action::AcquireScreenSurface,
            Action::CreateMemorySurface,
            Action::AllocatePixelBuffer {
                width: 100,
                height: 50,
                bits_per_pixel: 32,
                bottom_up: true
            },
            Action::BindPixelBuffer,
            Action::CopyPixels { x: 0, y: 0, width: 100, height: 50, layered: true },
            Action::Release(Resource::Binding),
            Action::Release(Resource::MemorySurface),
            Action::Release(Resource::ScreenSurface),
            Action::WrapImage,
            Action::MeasureEncoders,
            Action::ReserveEncoderList { size: 1040 },
            Action::ListEncoders { count: 3, size: 1040 },
            Action::Release(Resource::EncoderList),
            Action::SaveImage { encoder: PNG },
            Action::Release(Resource::Image),
            Action::Release(Resource::PixelBuffer),
            Action::Release(Resource::Session),
        ]
    );
}

#[test]
fn primary_display_is_saved_as_jpeg() {
    let region = resolve(CaptureMode::PrimaryDisplay, &vec![1920, 1080]).unwrap();
    assert_eq!(region, Region { x: 0, y: 0, width: 1920, height: 1080 });
    let run = drive(Pipeline::for_file(region, "shot.jpg"), installed(), None);
    assert_eq!(run.result, Ok(()));
    assert!(run.actions.contains(&Action::CopyPixels {
        x: 0,
        y: 0,
        width: 1920,
        height: 1080,
        layered: true
    }));
    assert!(run.actions.contains(&Action::SaveImage { encoder: JPEG }));
}

#[test]
fn full_desktop_left_of_origin_is_saved_as_bmp() {
    let region = resolve(CaptureMode::FullVirtualDesktop, &vec![-1920, 0, 3840, 1080]).unwrap();
    assert_eq!(region, Region { x: -1920, y: 0, width: 3840, height: 1080 });
    let run = drive(Pipeline::for_file(region, "wide.bmp"), installed(), None);
    assert_eq!(run.result, Ok(()));
    assert!(run.actions.contains(&Action::AllocatePixelBuffer {
        width: 3840,
        height: 1080,
        bits_per_pixel: 32,
        bottom_up: true
    }));
    assert!(run.actions.contains(&Action::CopyPixels {
        x: -1920,
        y: 0,
        width: 3840,
        height: 1080,
        layered: true
    }));
    assert!(run.actions.contains(&Action::SaveImage { encoder: BMP }));
}

#[test]
fn unrecognized_extension_writes_no_file() {
    let run = drive(Pipeline::for_file(region(), "shot.xyz"), installed(), None);
    assert_eq!(run.result, Err(CaptureError::UnsupportedFormat));
    assert!(!run.actions.iter().any(|a| matches!(a, Action::SaveImage { .. })));
    assert_eq!(
        run.released,
        vec![
            Resource::Binding,
            Resource::MemorySurface,
            Resource::ScreenSurface,
            Resource::EncoderList,
            Resource::Image,
            Resource::PixelBuffer,
            Resource::Session,
        ]
    );
    assert_eq!(sorted(&run.acquired), sorted(&run.released));
}

#[test]
fn invalid_region_asks_nothing_of_the_system() {
    assert_eq!(
        resolve(CaptureMode::ExplicitRect { x: 0, y: 0, width: 0, height: 50 }, &vec![]),
        Err(CaptureError::InvalidArgument)
    );
    let invalid = Region { x: 0, y: 0, width: 0, height: 50 };
    let pipeline = Pipeline::new(invalid, Some("png".to_string()));
    assert!(pipeline.is_finished());
    assert_eq!(pipeline.pending(), Action::Finish(Err(CaptureError::InvalidArgument)));
    let run = drive(Pipeline::new(invalid, Some("png".to_string())), installed(), None);
    assert_eq!(run.result, Err(CaptureError::InvalidArgument));
    assert_eq!(run.actions, vec![]);
    assert_eq!(run.acquired, vec![]);
}

#[test]
fn file_name_without_extension_is_invalid() {
    let run = drive(Pipeline::for_file(region(), "shot"), installed(), None);
    assert_eq!(run.result, Err(CaptureError::InvalidArgument));
    assert_eq!(run.actions.last(), Some(&Action::Release(Resource::Session)));
    assert_eq!(run.actions[9], Action::WrapImage);
    assert_eq!(
        run.actions[10..].to_vec(),
        vec![
            Action::Release(Resource::Image),
            Action::Release(Resource::PixelBuffer),
            Action::Release(Resource::Session),
        ]
    );
    let run = drive(Pipeline::new(region(), None), installed(), None);
    assert_eq!(run.result, Err(CaptureError::InvalidArgument));
    assert_eq!(sorted(&run.acquired), sorted(&run.released));
}

#[test]
fn every_failure_point_releases_everything() {
    let expected = [
        (0, CaptureError::SessionFailed, vec![]),
        (1, CaptureError::SurfaceUnavailable, vec![Resource::Session]),
        (2, CaptureError::SurfaceUnavailable, vec![Resource::ScreenSurface, Resource::Session]),
        (
            3,
            CaptureError::AllocationFailed,
            vec![Resource::MemorySurface, Resource::ScreenSurface, Resource::Session],
        ),
        (
            4,
            CaptureError::BindFailed,
            vec![
                Resource::PixelBuffer,
                Resource::MemorySurface,
                Resource::ScreenSurface,
                Resource::Session,
            ],
        ),
        (
            5,
            CaptureError::CopyFailed,
            vec![
                Resource::Binding,
                Resource::PixelBuffer,
                Resource::MemorySurface,
                Resource::ScreenSurface,
                Resource::Session,
            ],
        ),
        (
            9,
            CaptureError::WrapFailed,
            vec![
                Resource::Binding,
                Resource::MemorySurface,
                Resource::ScreenSurface,
                Resource::PixelBuffer,
                Resource::Session,
            ],
        ),
        (
            10,
            CaptureError::EncoderEnumerationFailed,
            vec![
                Resource::Binding,
                Resource::MemorySurface,
                Resource::ScreenSurface,
                Resource::Image,
                Resource::PixelBuffer,
                Resource::Session,
            ],
        ),
        (
            11,
            CaptureError::EncoderEnumerationFailed,
            vec![
                Resource::Binding,
                Resource::MemorySurface,
                Resource::ScreenSurface,
                Resource::Image,
                Resource::PixelBuffer,
                Resource::Session,
            ],
        ),
        (
            12,
            CaptureError::EncoderEnumerationFailed,
            vec![
                Resource::Binding,
                Resource::MemorySurface,
                Resource::ScreenSurface,
                Resource::EncoderList,
                Resource::Image,
                Resource::PixelBuffer,
                Resource::Session,
            ],
        ),
        (
            14,
            CaptureError::SaveFailed,
            vec![
                Resource::Binding,
                Resource::MemorySurface,
                Resource::ScreenSurface,
                Resource::EncoderList,
                Resource::Image,
                Resource::PixelBuffer,
                Resource::Session,
            ],
        ),
    ];
    for (index, error, released) in expected.iter() {
        let pipeline = Pipeline::new(region(), Some("png".to_string()));
        let run = drive(pipeline, installed(), Some(*index));
        assert_eq!(run.result, Err(*error), "failure at {}", index);
        assert_eq!(&run.released, released, "failure at {}", index);
        assert_eq!(run.acquired.len(), run.released.len(), "failure at {}", index);
        assert_eq!(sorted(&run.acquired), sorted(&run.released), "failure at {}", index);
    }
}

#[test]
fn acquires_and_releases_balance_on_every_path() {
    for index in 0..20usize {
        for name in ["out.png", "out.xyz", "out"] {
            let run = drive(Pipeline::for_file(region(), name), installed(), Some(index));
            assert_eq!(run.acquired.len(), run.released.len(), "{} failing at {}", name, index);
            assert_eq!(sorted(&run.acquired), sorted(&run.released));
            assert!(run.actions.len() <= 18);
            let mut seen: Vec<Resource> = Vec::new();
            for resource in run.released.iter() {
                assert!(!seen.contains(resource), "{:?} released twice", resource);
                seen.push(*resource);
            }
        }
    }
}

#[test]
fn failed_capture_releases_in_reverse_order() {
    for index in 0..6usize {
        let run = drive(Pipeline::for_file(region(), "out.png"), installed(), Some(index));
        let mut reversed = run.acquired.clone();
        reversed.reverse();
        assert_eq!(run.released, reversed);
        assert!(run.result.is_err());
    }
}

#[test]
fn after_capture_only_session_and_buffer_are_held() {
    let mut pipeline = Pipeline::for_file(region(), "out.png");
    let mut action = pipeline.pending();
    let mut released: Vec<Resource> = Vec::new();
    while action != Action::WrapImage {
        if let Action::Release(resource) = action {
            released.push(resource);
        }
        action = pipeline.step(Event::Done);
    }
    assert_eq!(
        released,
        vec![Resource::Binding, Resource::MemorySurface, Resource::ScreenSurface]
    );
    let held = pipeline.held();
    assert_eq!(held.depth(), 2);
    assert!(held.holds(Resource::Session));
    assert!(held.holds(Resource::PixelBuffer));
    assert!(!held.holds(Resource::ScreenSurface));
    assert!(!held.holds(Resource::MemorySurface));
    assert!(!held.holds(Resource::Binding));
    assert_eq!(held.top(), Some(Resource::PixelBuffer));
}

#[test]
fn no_encoders_installed() {
    let mut pipeline = Pipeline::for_file(region(), "out.png");
    let mut action = pipeline.pending();
    while action != Action::MeasureEncoders {
        action = pipeline.step(Event::Done);
    }
    action = pipeline.step(Event::EncoderSpace { count: 0, size: 0 });
    assert_eq!(action, Action::Release(Resource::Image));
    assert_eq!(pipeline.result(), Err(CaptureError::NoEncodersInstalled));

    let mut pipeline = Pipeline::for_file(region(), "out.png");
    let mut action = pipeline.pending();
    while action != Action::MeasureEncoders {
        action = pipeline.step(Event::Done);
    }
    action = pipeline.step(Event::EncoderSpace { count: 4, size: 0 });
    assert_eq!(action, Action::Release(Resource::Image));
    assert_eq!(pipeline.result(), Err(CaptureError::NoEncodersInstalled));

    let run = drive(Pipeline::for_file(region(), "out.png"), vec![], None);
    assert_eq!(run.result, Err(CaptureError::NoEncodersInstalled));
    assert_eq!(sorted(&run.acquired), sorted(&run.released));
}

#[test]
fn empty_listing_counts_as_no_encoders() {
    let mut pipeline = Pipeline::for_file(region(), "out.png");
    let mut action = pipeline.pending();
    while !matches!(action, Action::ListEncoders { .. }) {
        action = match action {
            Action::MeasureEncoders => pipeline.step(Event::EncoderSpace { count: 2, size: 200 }),
            _ => pipeline.step(Event::Done),
        };
    }
    assert_eq!(action, Action::ListEncoders { count: 2, size: 200 });
    action = pipeline.step(Event::Encoders(vec![]));
    assert_eq!(action, Action::Release(Resource::EncoderList));
    assert_eq!(pipeline.result(), Err(CaptureError::NoEncodersInstalled));
}

#[test]
fn answer_of_the_wrong_kind_counts_as_failure() {
    let mut pipeline = Pipeline::for_file(region(), "out.png");
    assert_eq!(pipeline.pending(), Action::StartSession);
    let action = pipeline.step(Event::EncoderSpace { count: 1, size: 1 });
    assert_eq!(action, Action::Finish(Err(CaptureError::SessionFailed)));

    let mut pipeline = Pipeline::for_file(region(), "out.png");
    let mut action = pipeline.pending();
    while action != Action::MeasureEncoders {
        action = pipeline.step(Event::Done);
    }
    action = pipeline.step(Event::Done);
    assert_eq!(action, Action::Release(Resource::Image));
    assert_eq!(pipeline.result(), Err(CaptureError::EncoderEnumerationFailed));
}

#[test]
fn finished_pipeline_stays_finished() {
    let mut pipeline = Pipeline::for_file(region(), "out.png");
    let action = pipeline.step(Event::Failed);
    assert_eq!(action, Action::Finish(Err(CaptureError::SessionFailed)));
    for event in [Event::Done, Event::Failed, Event::Encoders(installed())] {
        assert_eq!(pipeline.step(event), Action::Finish(Err(CaptureError::SessionFailed)));
        assert!(pipeline.is_finished());
    }
}

#[test]
fn first_failure_is_the_one_reported() {
    let mut pipeline = Pipeline::for_file(region(), "out.png");
    pipeline.step(Event::Done);
    pipeline.step(Event::Done);
    let mut action = pipeline.step(Event::Failed);
    assert_eq!(pipeline.result(), Err(CaptureError::SurfaceUnavailable));
    while !matches!(action, Action::Finish(_)) {
        action = pipeline.step(Event::Failed);
    }
    assert_eq!(action, Action::Finish(Err(CaptureError::SurfaceUnavailable)));
}

#[test]
fn extension_comes_from_the_file_name() {
    assert_eq!(extension_of("shot.jpg"), Some("jpg".to_string()));
    assert_eq!(extension_of("out.PNG"), Some("PNG".to_string()));
    assert_eq!(extension_of("archive.tar.gz"), Some("gz".to_string()));
    assert_eq!(extension_of("dir.d/shot.bmp"), Some("bmp".to_string()));
    assert_eq!(extension_of("shot."), Some("".to_string()));
    assert_eq!(extension_of("shot"), None);
    assert_eq!(extension_of(".hidden"), None);
    assert_eq!(extension_of("dir.d/shot"), None);
    assert_eq!(extension_of(""), None);
    assert_eq!(extension_of(".."), None);
}

#[test]
fn file_name_ending_in_a_dot_is_unsupported() {
    let run = drive(Pipeline::for_file(region(), "shot."), installed(), None);
    assert_eq!(run.result, Err(CaptureError::UnsupportedFormat));
}

#[test]
fn extension_case_does_not_matter_to_the_pipeline() {
    for name in ["a.PNG", "a.png", "a.Png"] {
        let run = drive(Pipeline::for_file(region(), name), installed(), None);
        assert_eq!(run.result, Ok(()));
        assert!(run.actions.contains(&Action::SaveImage { encoder: PNG }));
    }
    let run = drive(Pipeline::new(region(), Some(".png".to_string())), installed(), None);
    assert!(run.actions.contains(&Action::SaveImage { encoder: PNG }));
}

#[test]
fn plain_names_have_what_follows_the_last_dot() {
    let some = |s: &str| Some(s.to_string());
    assert_eq!(extension_of("out.png"), some("png"));
    assert_eq!(extension_of("a.b.c"), some("c"));
    assert_eq!(extension_of("a."), some(""));
    assert_eq!(extension_of("a..b"), some("b"));
    assert_eq!(extension_of("..a"), some("a"));
    assert_eq!(extension_of("..."), some(""));
    assert_eq!(extension_of("a.b "), some("b "));
    assert_eq!(extension_of(" .x"), some("x"));
    assert_eq!(extension_of("é.ü"), some("ü"));
    assert_eq!(extension_of("CON.txt"), some("txt"));
    assert_eq!(extension_of(""), None);
    assert_eq!(extension_of("a"), None);
    assert_eq!(extension_of("."), None);
    assert_eq!(extension_of(".."), None);
    assert_eq!(extension_of(".a"), None);
    assert_eq!(extension_of(".png"), None);
}

#[test]
fn plain_names_agree_with_the_rule_for_every_short_name() {
    let alphabet = ['a', '.', ' '];
    let mut names: Vec<String> = vec![String::new()];
    let mut from: usize = 0;
    for _ in 0..5 {
        let upto: usize = names.len();
        for i in from..upto {
            for c in alphabet.iter() {
                let mut longer = names[i].clone();
                longer.push(*c);
                names.push(longer);
            }
        }
        from = upto;
    }
    for name in names.iter() {
        let expected = match name.rfind('.') {
            Some(dot) if dot > 0 && name != ".." => Some(name[dot + 1..].to_string()),
            _ => None,
        };
        assert_eq!(extension_of(name), expected, "{:?}", name);
    }
}
