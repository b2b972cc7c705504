use mc_keygen::device::{
    checked_result, compare_chain, read_result, same_bytes, scalar_public_key, validate_match,
    verify_start_scalar, DeviceKey, VERIFY_COUNT,
};
use mc_keygen::gpu;
use mc_keygen::gpu::{
    context_error, cuda_device_name, driver_result, CudaBatchResult, CudaError, CudaSearcher,
};
use mc_keygen::keygen::generate_keypair;
use mc_keygen::metal_gpu;
use mc_keygen::metal_gpu::{metal_device_name, MetalError, MetalSearcher};
use mc_keygen::packing::pack_prefixes;
use mc_keygen::scalar::{advance_scalar, clamp_scalar};

fn strings(texts: &[&str]) -> Vec<String> {
    texts.iter().map(|t| t.to_string()).collect()
}

fn result_buffer(flag: u32, public_key: &[u8; 32], scalar: &[u8; 32]) -> Vec<u8> {
    let mut buffer = vec![0u8; 100];
    buffer[..4].copy_from_slice(&flag.to_le_bytes());
    buffer[4..36].copy_from_slice(public_key);
    buffer[36..68].copy_from_slice(scalar);
    buffer
}

fn good_key() -> ([u8; 32], [u8; 32]) {
    let kp = generate_keypair(&[5; 32]);
    let mut scalar = [0u8; 32];
    scalar.copy_from_slice(&kp.private_key[..32]);
    (kp.public_key, scalar)
}

fn chain_buffers() -> (Vec<u8>, Vec<u8>) {
    let mut keys = Vec::new();
    let mut scalars = Vec::new();
    let mut scalar = verify_start_scalar();
    for _ in 0..VERIFY_COUNT {
        keys.extend_from_slice(&scalar_public_key(&scalar));
        scalars.extend_from_slice(&scalar);
        advance_scalar(&mut scalar, 8);
    }
    (keys, scalars)
}

#[test]
fn result_buffer_is_read() {
    let (public_key, scalar) = good_key();
    assert!(read_result(&result_buffer(0, &public_key, &scalar)).is_none());
    let key = read_result(&result_buffer(0x0100_0000, &public_key, &scalar)).unwrap();
    assert_eq!(key.public_key, public_key);
    assert_eq!(key.scalar, scalar);
}

#[test]
fn reported_key_is_checked() {
    let (public_key, scalar) = good_key();
    assert!(matches!(checked_result(&result_buffer(0, &[1; 32], &[2; 32])), Ok(None)));
    assert!(matches!(checked_result(&result_buffer(1, &public_key, &scalar)), Ok(Some(_))));
    let mut wrong = public_key;
    wrong[31] ^= 1;
    let message = checked_result(&result_buffer(1, &wrong, &scalar)).err().unwrap();
    assert_eq!(
        message,
        format!(
            "GPU match validation failed: scalar·B != pubkey\n  scalar:  {}\n  GPU pub: {}\n  CPU pub: {}",
            hex::encode_upper(scalar),
            hex::encode_upper(wrong),
            hex::encode_upper(public_key),
        )
    );
}

#[test]
fn comparison_sees_every_byte() {
    let a = [7u8; 32];
    assert!(same_bytes(&a, &[7; 32]));
    for i in 0..32 {
        let mut b = a;
        b[i] = 8;
        assert!(!same_bytes(&a, &b));
        let key = DeviceKey { public_key: a, scalar: [0; 32] };
        assert!(validate_match(&key, &b).is_err());
    }
}

#[test]
fn verification_starts_from_a_fixed_scalar() {
    let mut start = [0u8; 32];
    start[0] = 0x10;
    start[1] = 0x32;
    start[2] = 0x54;
    start[3] = 0x76;
    start[31] = 0x52;
    assert_eq!(verify_start_scalar(), start);
}

#[test]
fn matching_chain_passes() {
    let (keys, scalars) = chain_buffers();
    let (report, outcome) = gpu::verify_gpu_keygen(&keys, &scalars);
    assert!(outcome.is_ok());
    assert_eq!(report.pass, 64);
    assert_eq!(report.text("GPU"), "64/64 chain steps matched (GPU vs CPU)");
    let (report, outcome) = metal_gpu::verify_gpu_keygen(&keys, &scalars);
    assert!(outcome.is_ok());
    assert_eq!(report.text("Metal GPU"), "64/64 chain steps matched (Metal GPU vs CPU)");
}

#[test]
fn mismatched_step_is_reported() {
    let (mut keys, mut scalars) = chain_buffers();
    let cpu_pub = hex::encode_upper(&keys[32 * 10..32 * 11]);
    let expected_scalar = hex::encode_upper(&scalars[32 * 10..32 * 11]);
    keys[32 * 10] ^= 0xFF;
    scalars[32 * 63 + 31] ^= 1;
    let gpu_pub = hex::encode_upper(&keys[32 * 10..32 * 11]);
    let report = compare_chain(&keys, &scalars);
    assert_eq!(report.pass, 62);
    assert_eq!(report.mismatches.len(), 2);
    assert_eq!(report.mismatches[0].index, 10);
    assert_eq!(report.mismatches[1].index, 63);
    let text = report.text("GPU");
    let first = format!(
        "MISMATCH idx #10\n  CPU pubkey:  {}\n  GPU pubkey:  {}\n  expected scalar: {}\n  GPU scalar:      {}\nMISMATCH idx #63\n",
        cpu_pub, gpu_pub, expected_scalar, expected_scalar
    );
    assert!(text.starts_with(&first));
    assert!(text.ends_with("\n62/64 chain steps matched (GPU vs CPU)"));
    assert!(!text.contains("stopping"));
    match gpu::verify_gpu_keygen(&keys, &scalars).1 {
        Err(CudaError::CudaDriver(message)) => assert_eq!(
            message,
            "2 of 64 chain steps mismatched between GPU and CPU"
        ),
        _ => unreachable!(),
    }
    match metal_gpu::verify_gpu_keygen(&keys, &scalars).1 {
        Err(MetalError::Runtime(message)) => assert_eq!(
            message,
            "2 of 64 chain steps mismatched between Metal GPU and CPU"
        ),
        _ => unreachable!(),
    }
}

#[test]
fn verification_stops_after_five_mismatches() {
    let (_, scalars) = chain_buffers();
    let (mut keys, _) = chain_buffers();
    for i in [2usize, 3, 5, 8, 13, 21] {
        keys[32 * i] ^= 1;
    }
    let report = compare_chain(&keys, &scalars);
    assert_eq!(report.mismatches.len(), 5);
    assert_eq!(report.mismatches[4].index, 13);
    assert_eq!(report.pass, 9);
    assert!(report.text("GPU").ends_with(
        "\n  (stopping after 5 mismatches)\n9/64 chain steps matched (GPU vs CPU)"
    ));
    assert_eq!(
        report.outcome("GPU"),
        Err("5 of 64 chain steps mismatched between GPU and CPU".to_string())
    );
}

#[test]
fn cuda_errors_have_messages() {
    assert_eq!(CudaError::NoCudaDevice.message(), "no CUDA-capable GPU found");
    assert_eq!(
        CudaError::CudaDriver("x".to_string()).message(),
        "CUDA driver error: x"
    );
    assert_eq!(
        CudaError::Compilation("y".to_string()).message(),
        "CUDA kernel compilation error: y"
    );
}

#[test]
fn metal_errors_have_messages() {
    assert_eq!(MetalError::NoMetalDevice.message(), "no Metal-capable GPU found");
    assert_eq!(
        MetalError::Compilation("y".to_string()).message(),
        "Metal kernel compilation error: y"
    );
    assert_eq!(
        MetalError::Runtime("x".to_string()).message(),
        "Metal runtime error: x"
    );
}

#[test]
fn context_errors_are_told_apart() {
    assert!(matches!(
        context_error("CUDA: no device is available".to_string()),
        CudaError::NoCudaDevice
    ));
    assert!(matches!(
        context_error("library not found".to_string()),
        CudaError::NoCudaDevice
    ));
    match context_error("out of memory".to_string()) {
        CudaError::CudaDriver(message) => assert_eq!(message, "out of memory"),
        _ => unreachable!(),
    }
}

#[test]
fn cuda_searcher_is_set_up() {
    let prefixes = strings(&["AB", "C"]);
    let searcher = CudaSearcher::with_start(&prefixes, 128, Some("RTX"), &[0xFF; 32]);
    assert_eq!(searcher.grid_size(), 256);
    assert_eq!(searcher.prefix_data(), &pack_prefixes(&prefixes));
    assert_eq!(searcher.prefix_count(), 2);
    assert_eq!(searcher.device_name(), "CUDA GPU (RTX)");
    assert_eq!(searcher.keys_per_launch(), 256 * 256 * 256);
    let mut start = [0xFF; 32];
    clamp_scalar(&mut start);
    assert_eq!(searcher.start_scalar(), start);
    assert_eq!(cuda_device_name(None), "CUDA GPU");
    let random = CudaSearcher::new(&prefixes, 1, None).unwrap();
    let mut clamped = random.start_scalar();
    clamp_scalar(&mut clamped);
    assert_eq!(random.start_scalar(), clamped);
}

#[test]
fn cuda_launch_advances_the_start() {
    let mut searcher = CudaSearcher::with_start(&strings(&["AB"]), 2, None, &[3; 32]);
    let mut start = searcher.start_scalar();
    let keys = 4 * 256 * 256u64;
    assert_eq!(searcher.count_batch(&[5, 1, 0, 0]), (keys, 261));
    advance_scalar(&mut start, 8 * keys);
    assert_eq!(searcher.start_scalar(), start);

    let batch = searcher.search_batch(&result_buffer(0, &[1; 32], &[2; 32])).unwrap();
    assert_eq!(batch.keys_checked, keys);
    assert!(batch.keypair.is_none());
    advance_scalar(&mut start, 8 * keys);
    assert_eq!(searcher.start_scalar(), start);
}

#[test]
fn cuda_match_is_taken_only_if_it_checks() {
    let (public_key, scalar) = good_key();
    let mut searcher = CudaSearcher::with_start(&strings(&["AB"]), 2, None, &[3; 32]);
    let start = searcher.start_scalar();

    let error = searcher.search_batch(&result_buffer(1, &[1; 32], &scalar)).err().unwrap();
    assert!(error
        .message()
        .starts_with("CUDA driver error: GPU match validation failed: scalar·B != pubkey\n"));
    assert_eq!(searcher.start_scalar(), start);

    let batch = searcher.search_batch(&result_buffer(1, &public_key, &scalar)).unwrap();
    let keypair = batch.keypair.unwrap();
    assert_eq!(keypair.public_key, public_key);
    assert_eq!(&keypair.private_key[..32], &scalar);
    assert_ne!(&keypair.private_key[32..], &[0; 32]);
    assert_ne!(searcher.start_scalar(), start);

    let batch = searcher.take_batch(&result_buffer(1, &public_key, &scalar), &[4; 32]).unwrap();
    let result = driver_result(batch);
    assert_eq!(result.keys_checked, 4 * 256 * 256);
    assert_eq!(&result.keypair.unwrap().private_key[32..], &[4; 32]);
    let empty = driver_result(CudaBatchResult { keys_checked: 3, keypair: None });
    assert!(empty.keypair.is_none());
}

#[test]
fn metal_searcher_is_set_up() {
    let prefixes = strings(&["AB"]);
    let searcher = MetalSearcher::with_start(&prefixes, 1024, "M4 Max", &[0; 32]);
    assert_eq!(searcher.threadgroup_size(), 256);
    assert_eq!(searcher.grid_size(), 256 * 64);
    assert_eq!(searcher.keys_per_launch(), 256 * 64 * 256);
    assert_eq!(searcher.device_name(), "Metal GPU (M4 Max)");
    assert_eq!(metal_device_name("x"), "Metal GPU (x)");
    assert_eq!(searcher.prefix_data(), &pack_prefixes(&prefixes));
    assert_eq!(searcher.prefix_count(), 1);
    let small = MetalSearcher::new(&prefixes, 64, "x").unwrap();
    assert_eq!(small.threadgroup_size(), 64);
    assert_eq!(small.grid_size(), 64 * 64);
}

#[test]
fn metal_launches_work_like_cuda_launches() {
    let (public_key, scalar) = good_key();
    let mut searcher = MetalSearcher::with_start(&strings(&["AB"]), 256, "x", &[3; 32]);
    let mut start = searcher.start_scalar();
    let keys = 256 * 64 * 256u64;
    assert_eq!(searcher.count_batch(&[1, 0, 0, 1]), (keys, 0x0100_0001));
    advance_scalar(&mut start, 8 * keys);
    assert_eq!(searcher.start_scalar(), start);

    let error = searcher.search_batch(&result_buffer(1, &[1; 32], &scalar)).err().unwrap();
    assert!(error
        .message()
        .starts_with("Metal runtime error: GPU match validation failed: scalar·B != pubkey\n"));
    assert_eq!(searcher.start_scalar(), start);

    let batch = searcher.search_batch(&result_buffer(1, &public_key, &scalar)).unwrap();
    assert_eq!(batch.keys_checked, keys);
    assert_eq!(batch.keypair.unwrap().public_key, public_key);
    advance_scalar(&mut start, 8 * keys);
    assert_eq!(searcher.start_scalar(), start);

    let batch = searcher.take_batch(&result_buffer(1, &public_key, &scalar), &[6; 32]).unwrap();
    assert_eq!(&batch.keypair.unwrap().private_key[32..], &[6; 32]);
}

#[test]
fn launches_do_not_overlap() {
    let mut searcher = CudaSearcher::with_start(&strings(&["AB"]), 1, None, &[0; 32]);
    let first = searcher.start_scalar();
    searcher.count_batch(&[0; 4]);
    let mut last_of_first = first;
    advance_scalar(&mut last_of_first, 8 * (2 * 256 * 256 - 1));
    let mut behind = last_of_first;
    advance_scalar(&mut behind, 8);
    assert_eq!(searcher.start_scalar(), behind);
}

#[test]
fn draw_decides_whether_there_is_a_searcher() {
    let prefixes = strings(&["AB"]);
    let mut start = [0xFF; 32];
    clamp_scalar(&mut start);

    assert!(CudaSearcher::from_draw(&prefixes, 4, None, None).is_none());
    let cuda = CudaSearcher::from_draw(&prefixes, 4, None, Some([0xFF; 32])).unwrap();
    assert_eq!(cuda.start_scalar(), start);
    assert_eq!(cuda.grid_size(), 8);

    assert!(MetalSearcher::from_draw(&prefixes, 64, "x", None).is_none());
    let metal = MetalSearcher::from_draw(&prefixes, 64, "x", Some([0xFF; 32])).unwrap();
    assert_eq!(metal.start_scalar(), start);
    assert_eq!(metal.threadgroup_size(), 64);
}

#[test]
fn failed_draw_stops_only_a_reported_key() {
    let (public_key, scalar) = good_key();
    let none = result_buffer(0, &public_key, &scalar);
    let good = result_buffer(1, &public_key, &scalar);
    let wrong = result_buffer(1, &[1; 32], &scalar);

    let mut cuda = CudaSearcher::with_start(&strings(&["AB"]), 2, None, &[3; 32]);
    let start = cuda.start_scalar();
    let error = cuda.take_drawn(&good, None).err().unwrap();
    assert_eq!(error.message(), "CUDA driver error: no random bytes available");
    let error = cuda.take_drawn(&wrong, None).err().unwrap();
    assert!(error.message().starts_with("CUDA driver error: GPU match validation failed"));
    assert!(cuda.take_drawn(&wrong, Some([4; 32])).is_err());
    assert_eq!(cuda.start_scalar(), start);
    assert!(cuda.take_drawn(&none, None).unwrap().keypair.is_none());
    assert_ne!(cuda.start_scalar(), start);
    let keypair = cuda.take_drawn(&good, Some([4; 32])).unwrap().keypair.unwrap();
    assert_eq!(&keypair.private_key[..32], &scalar);
    assert_eq!(&keypair.private_key[32..], &[4; 32]);

    let mut metal = MetalSearcher::with_start(&strings(&["AB"]), 256, "x", &[3; 32]);
    let start = metal.start_scalar();
    let error = metal.take_drawn(&good, None).err().unwrap();
    assert_eq!(error.message(), "Metal runtime error: no random bytes available");
    assert!(metal.take_drawn(&wrong, Some([4; 32])).is_err());
    assert_eq!(metal.start_scalar(), start);
    assert!(metal.take_drawn(&none, None).unwrap().keypair.is_none());
    assert_ne!(metal.start_scalar(), start);
    let keypair = metal.take_drawn(&good, Some([4; 32])).unwrap().keypair.unwrap();
    assert_eq!(&keypair.private_key[32..], &[4; 32]);
}

#[test]
fn launches_make_one_walk() {
    let mut searcher = CudaSearcher::with_start(&strings(&["AB"]), 1, None, &[9; 32]);
    let mut expected = searcher.start_scalar();
    let mut starts = vec![searcher.start_scalar()];
    for _ in 0..4 {
        searcher.count_batch(&[0; 4]);
        assert!(!starts.contains(&searcher.start_scalar()));
        starts.push(searcher.start_scalar());
    }
    advance_scalar(&mut expected, 8 * 4 * searcher.keys_per_launch());
    assert_eq!(searcher.start_scalar(), expected);
}
