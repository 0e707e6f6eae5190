use std::cell::RefCell;
use std::collections::HashMap;

use candle_core::{DType, Device, Tensor};
use candle_nn::VarBuilder;
use resnet::blocks::{BasicBlock, BottleneckBlock, Downsample};
use resnet::error::NetError;
use resnet::names::decimal_string;
use resnet::params::{
    accept_conv, accept_linear, accept_norm, ConvAnswer, LinearAnswer, Loaded, NormAnswer,
    ParamKind, ParamRequest,
};
use resnet::resnet::{
    resnet101, resnet101_no_final_layer, resnet150_no_final_layer, resnet152, resnet18,
    resnet18_no_final_layer, resnet34, resnet34_no_final_layer, resnet50,
    resnet50_no_final_layer, BottleneckResnet, ResNet,
};
use resnet::sequential::Sequential;
use resnet::tensor::Activation;

fn load_from(vb: &VarBuilder, req: &ParamRequest) -> candle_core::Result<Loaded> {
    let mut vb = vb.clone();
    for segment in req.path.iter() {
        vb = vb.pp(segment);
    }
    Ok(match &req.kind {
        ParamKind::Conv2d { in_channels, out_channels, kernel_size, padding, stride } => {
            let cfg = candle_nn::Conv2dConfig {
                padding: *padding,
                stride: *stride,
                ..Default::default()
            };
            Loaded::Conv2d(ConvAnswer::new(candle_nn::conv2d_no_bias(*in_channels, *out_channels, *kernel_size, cfg, vb)?))
        }
        ParamKind::BatchNorm { num_features } => {
            Loaded::BatchNorm(NormAnswer::new(candle_nn::batch_norm(*num_features, 1e-5, vb)?))
        }
        ParamKind::Linear { in_dim, out_dim } => {
            Loaded::Linear(LinearAnswer::new(candle_nn::linear(*in_dim, *out_dim, vb)?))
        }
    })
}

fn zeros() -> VarBuilder<'static> {
    VarBuilder::zeros(DType::F32, &Device::Cpu)
}

fn input(dims: &[usize]) -> Activation {
    Activation::new(Tensor::ones(dims, DType::F32, &Device::Cpu).unwrap())
}

fn path(segments: &[&str]) -> Vec<String> {
    segments.iter().map(|s| s.to_string()).collect()
}

#[test]
fn resnet18_classifies_to_num_classes() {
    let vb = zeros();
    let load = |r: &ParamRequest| load_from(&vb, r);
    let net: ResNet = resnet18(&load, 10).ok().unwrap();
    let y = net.forward(&input(&[2, 3, 32, 32])).ok().unwrap();
    assert_eq!(y.dims(), &vec![2, 10]);
    assert_eq!(y.into_tensor().dims(), &[2, 10]);
}

#[test]
fn resnet18_without_final_layer_gives_512_features() {
    let vb = zeros();
    let load = |r: &ParamRequest| load_from(&vb, r);
    let net = resnet18_no_final_layer(&load).ok().unwrap();
    let y = net.forward(&input(&[1, 3, 33, 17])).ok().unwrap();
    assert_eq!(y.dims(), &vec![1, 512]);
}

#[test]
fn resnet34_classifies_to_num_classes() {
    let vb = zeros();
    let load = |r: &ParamRequest| load_from(&vb, r);
    let net = resnet34(&load, 5).ok().unwrap();
    let y = net.forward(&input(&[1, 3, 16, 16])).ok().unwrap();
    assert_eq!(y.dims(), &vec![1, 5]);
    let features = resnet34_no_final_layer(&load).ok().unwrap();
    let z = features.forward(&input(&[1, 3, 16, 16])).ok().unwrap();
    assert_eq!(z.dims(), &vec![1, 512]);
}

#[test]
fn resnet18_rejects_wrong_channel_count() {
    let vb = zeros();
    let load = |r: &ParamRequest| load_from(&vb, r);
    let net = resnet18(&load, 10).ok().unwrap();
    let r = net.forward(&input(&[1, 4, 16, 16]));
    assert!(matches!(r, Err(NetError::Candle(_))));
}

#[test]
fn resnet18_requests_layers_in_order_under_their_paths() {
    let vb = zeros();
    let seen: RefCell<Vec<String>> = RefCell::new(Vec::new());
    let load = |r: &ParamRequest| {
        seen.borrow_mut().push(r.path.join("."));
        load_from(&vb, r)
    };
    let _net = resnet18(&load, 10).ok().unwrap();
    let seen = seen.into_inner();
    assert_eq!(seen.len(), 41);
    assert_eq!(seen[0], "conv1");
    assert_eq!(seen[1], "bn1");
    assert_eq!(&seen[2..6], &["layer1.0.conv1", "layer1.0.bn1", "layer1.0.conv2", "layer1.0.bn2"]);
    assert_eq!(seen[10], "layer2.0.conv1");
    assert_eq!(&seen[14..16], &["layer2.0.downsample.0", "layer2.0.downsample.1"]);
    assert_eq!(seen[16], "layer2.1.conv1");
    assert_eq!(seen[40], "fc");
    assert!(!seen.iter().any(|p| p.starts_with("layer1.0.downsample")));
}

#[test]
fn missing_weight_is_a_backend_error() {
    let mut ts: HashMap<String, Tensor> = HashMap::new();
    ts.insert("conv1.weight".to_string(), Tensor::zeros((64, 3, 7, 7), DType::F32, &Device::Cpu).unwrap());
    let vb = VarBuilder::from_tensors(ts, DType::F32, &Device::Cpu);
    let load = |r: &ParamRequest| load_from(&vb, r);
    let r = resnet18(&load, 10);
    assert!(matches!(r, Err(NetError::Candle(_))));
}

#[test]
fn wrong_weight_shape_is_a_backend_error() {
    let mut ts: HashMap<String, Tensor> = HashMap::new();
    ts.insert("conv1.weight".to_string(), Tensor::zeros((64, 3, 3, 3), DType::F32, &Device::Cpu).unwrap());
    let vb = VarBuilder::from_tensors(ts, DType::F32, &Device::Cpu);
    let load = |r: &ParamRequest| load_from(&vb, r);
    assert!(matches!(resnet18(&load, 10), Err(NetError::Candle(_))));
}

#[test]
fn layer_of_another_kind_is_a_mismatch() {
    let vb = zeros();
    let load = |_r: &ParamRequest| -> candle_core::Result<Loaded> {
        Ok(Loaded::BatchNorm(NormAnswer::new(candle_nn::batch_norm(64, 1e-5, vb.clone())?)))
    };
    assert!(matches!(resnet18(&load, 10), Err(NetError::LayerMismatch)));
}

#[test]
fn convolution_with_bias_is_a_mismatch() {
    let vb = zeros();
    let load = |r: &ParamRequest| -> candle_core::Result<Loaded> {
        match &r.kind {
            ParamKind::Conv2d { in_channels, out_channels, kernel_size, padding, stride } => {
                let cfg = candle_nn::Conv2dConfig { padding: *padding, stride: *stride, ..Default::default() };
                Ok(Loaded::Conv2d(ConvAnswer::new(candle_nn::conv2d(*in_channels, *out_channels, *kernel_size, cfg, vb.clone())?)))
            }
            _ => load_from(&vb, r),
        }
    };
    assert!(matches!(resnet18(&load, 10), Err(NetError::LayerMismatch)));
}

#[test]
fn basic_block_with_projection_halves_spatial_size() {
    let vb = zeros();
    let load = |r: &ParamRequest| load_from(&vb, r);
    let block = BasicBlock::new(&load, &path(&["layer2", "0"]), 64, 128, 2).ok().unwrap();
    let y = block.forward(&input(&[1, 64, 9, 8])).ok().unwrap();
    assert_eq!(y.dims(), &vec![1, 128, 5, 4]);
}

#[test]
fn basic_block_without_projection_keeps_shape() {
    let vb = zeros();
    let seen: RefCell<Vec<String>> = RefCell::new(Vec::new());
    let load = |r: &ParamRequest| {
        seen.borrow_mut().push(r.path.join("."));
        load_from(&vb, r)
    };
    let block = BasicBlock::new(&load, &path(&["layer1", "1"]), 64, 64, 1).ok().unwrap();
    assert_eq!(seen.borrow().len(), 4);
    let y = block.forward(&input(&[2, 64, 7, 7])).ok().unwrap();
    assert_eq!(y.dims(), &vec![2, 64, 7, 7]);
}

#[test]
fn downsample_is_identity_when_nothing_changes() {
    let vb = zeros();
    let load = |r: &ParamRequest| load_from(&vb, r);
    let ds = Downsample::new(&load, &path(&["d"]), 32, 32, 1).ok().unwrap();
    let y = ds.forward(&input(&[1, 32, 5, 6])).ok().unwrap();
    assert_eq!(y.dims(), &vec![1, 32, 5, 6]);
    let proj = Downsample::new(&load, &path(&["d"]), 32, 64, 2).ok().unwrap();
    let z = proj.forward(&input(&[1, 32, 5, 6])).ok().unwrap();
    assert_eq!(z.dims(), &vec![1, 64, 3, 3]);
}

#[test]
fn bottleneck_block_widens_to_four_times_its_width() {
    let vb = zeros();
    let load = |r: &ParamRequest| load_from(&vb, r);
    let block = BottleneckBlock::new(&load, &path(&["layer1", "0"]), 64, 64, 1, 4).ok().unwrap();
    let y = block.forward(&input(&[1, 64, 8, 8])).ok().unwrap();
    assert_eq!(y.dims(), &vec![1, 256, 8, 8]);
    let strided = BottleneckBlock::new(&load, &path(&["b"]), 256, 128, 2, 4).ok().unwrap();
    let z = strided.forward(&input(&[2, 256, 9, 8])).ok().unwrap();
    assert_eq!(z.dims(), &vec![2, 512, 5, 4]);
}

#[test]
fn bottleneck_block_adds_skip_and_applies_relu() {
    // All weights zero: the main branch is zero and the identity skip passes x on.
    let vb = zeros();
    let load = |r: &ParamRequest| load_from(&vb, r);
    let block = BottleneckBlock::new(&load, &path(&["b"]), 256, 64, 1, 4).ok().unwrap();
    let up = values(block.forward(&filled(&[1, 256, 2, 2], 0.75)).ok().unwrap());
    assert!(up.iter().all(|v| (*v - 0.75).abs() < 1e-6));
    let down = values(block.forward(&filled(&[1, 256, 2, 2], -1.0)).ok().unwrap());
    assert!(down.iter().all(|v| *v == 0.0));
}

#[test]
fn bottleneck_block_with_expansion_one_adds() {
    let vb = zeros();
    let load = |r: &ParamRequest| load_from(&vb, r);
    let block = BottleneckBlock::new(&load, &path(&["b"]), 16, 32, 2, 1).ok().unwrap();
    let y = block.forward(&input(&[1, 16, 9, 9])).ok().unwrap();
    assert_eq!(y.dims(), &vec![1, 32, 5, 5]);
}

#[test]
fn bottleneck_networks_classify_to_num_classes() {
    let vb = zeros();
    let load = |r: &ParamRequest| load_from(&vb, r);
    let net: BottleneckResnet = resnet50(&load, 10).ok().unwrap();
    let y = net.forward(&input(&[2, 3, 32, 32])).ok().unwrap();
    assert_eq!(y.dims(), &vec![2, 10]);
    let features = resnet50_no_final_layer(&load).ok().unwrap();
    let f = features.forward(&filled(&[1, 3, 64, 64], 0.0)).ok().unwrap();
    assert_eq!(f.dims(), &vec![1, 2048]);
    assert!(values(f).iter().all(|v| *v == 0.0));
}

#[test]
fn bottleneck_network_needs_five_pixels_per_axis() {
    let vb = zeros();
    let load = |r: &ParamRequest| load_from(&vb, r);
    let net = resnet50_no_final_layer(&load).ok().unwrap();
    assert!(net.forward(&input(&[1, 3, 5, 5])).is_ok());
    assert!(matches!(net.forward(&input(&[1, 3, 4, 5])), Err(NetError::Candle(_))));
}

#[test]
fn deeper_bottleneck_networks_load() {
    let vb = zeros();
    let load = |r: &ParamRequest| load_from(&vb, r);
    assert!(resnet101(&load, 3).is_ok());
    assert!(resnet101_no_final_layer(&load).is_ok());
    assert!(resnet152(&load, 3).is_ok());
    assert!(resnet150_no_final_layer(&load).is_ok());
}

#[test]
fn bottleneck_layer_always_has_a_first_block() {
    let vb = zeros();
    let seen: RefCell<Vec<String>> = RefCell::new(Vec::new());
    let load = |r: &ParamRequest| {
        seen.borrow_mut().push(r.path.join("."));
        load_from(&vb, r)
    };
    let _net = BottleneckResnet::new(&load, None, 0, 0, 0, 0).ok().unwrap();
    let seen = seen.into_inner();
    assert!(seen.contains(&"layer1.0.conv3".to_string()));
    assert!(seen.contains(&"layer4.0.downsample.1".to_string()));
    assert!(!seen.iter().any(|p| p.starts_with("layer1.1")));
}

#[test]
fn resnet_with_empty_layers_has_no_blocks() {
    let vb = zeros();
    let seen: RefCell<Vec<String>> = RefCell::new(Vec::new());
    let load = |r: &ParamRequest| {
        seen.borrow_mut().push(r.path.join("."));
        load_from(&vb, r)
    };
    let _net = ResNet::new(&load, Some(7), 0, 1, 0, 0).ok().unwrap();
    let seen = seen.into_inner();
    assert_eq!(seen[2], "layer2.0.conv1");
    assert_eq!(seen.len(), 2 + 6 + 1);
}

#[test]
fn decimal_names() {
    assert_eq!(decimal_string(0), "0");
    assert_eq!(decimal_string(7), "7");
    assert_eq!(decimal_string(10), "10");
    assert_eq!(decimal_string(35), "35");
    assert_eq!(decimal_string(1203), "1203");
}

#[test]
fn sequential_stack() {
    let mut s: Sequential<u32> = resnet::sequential::seq(3);
    assert!(s.is_empty());
    assert_eq!(s.len(), 0);
    s.push(1);
    s.add(2);
    assert_eq!(s.len(), 2);
    assert_eq!(s.layers(), &vec![1, 2]);
    assert!(!s.is_empty());
}

fn filled(dims: &[usize], v: f32) -> Activation {
    Activation::new((Tensor::ones(dims, DType::F32, &Device::Cpu).unwrap() * v as f64).unwrap())
}

fn values(a: Activation) -> Vec<f32> {
    a.into_tensor().flatten_all().unwrap().to_vec1::<f32>().unwrap()
}

#[test]
fn identity_block_adds_skip_and_applies_relu() {
    // With all weights zero the main branch is zero, so the block computes relu(x).
    let vb = zeros();
    let load = |r: &ParamRequest| load_from(&vb, r);
    let block = BasicBlock::new(&load, &path(&["b"]), 4, 4, 1).ok().unwrap();
    let up = values(block.forward(&filled(&[1, 4, 3, 3], 1.5)).ok().unwrap());
    assert!(up.iter().all(|v| (*v - 1.5).abs() < 1e-6));
    let down = values(block.forward(&filled(&[1, 4, 3, 3], -2.0)).ok().unwrap());
    assert!(down.iter().all(|v| *v == 0.0));
}

#[test]
fn projection_applies_batch_norm_after_convolution() {
    let dev = Device::Cpu;
    let mut ts: HashMap<String, Tensor> = HashMap::new();
    ts.insert("p.0.weight".to_string(), Tensor::ones((1, 1, 1, 1), DType::F32, &dev).unwrap());
    ts.insert("p.1.running_mean".to_string(), Tensor::zeros(1, DType::F32, &dev).unwrap());
    ts.insert("p.1.running_var".to_string(), Tensor::ones(1, DType::F32, &dev).unwrap());
    ts.insert("p.1.weight".to_string(), Tensor::ones(1, DType::F32, &dev).unwrap());
    ts.insert("p.1.bias".to_string(), (Tensor::ones(1, DType::F32, &dev).unwrap() * 5.0).unwrap());
    let vb = VarBuilder::from_tensors(ts, DType::F32, &dev);
    let load = |r: &ParamRequest| load_from(&vb, r);
    let proj = Downsample::new(&load, &path(&["p"]), 1, 1, 2).ok().unwrap();
    let y = proj.forward(&filled(&[1, 1, 4, 4], 2.0)).ok().unwrap();
    assert_eq!(y.dims(), &vec![1, 1, 2, 2]);
    assert!(values(y).iter().all(|v| (*v - 7.0).abs() < 1e-3));
}

#[test]
fn resnet152_names_blocks_past_ten() {
    let vb = zeros();
    let seen: RefCell<Vec<String>> = RefCell::new(Vec::new());
    let load = |r: &ParamRequest| {
        seen.borrow_mut().push(r.path.join("."));
        load_from(&vb, r)
    };
    let _net = resnet152(&load, 3).ok().unwrap();
    let seen = seen.into_inner();
    assert!(seen.contains(&"layer3.35.conv3".to_string()));
    assert!(!seen.contains(&"layer3.36.conv1".to_string()));
    assert!(seen.contains(&"layer2.7.bn3".to_string()));
    assert_eq!(seen.last().unwrap(), "fc");
}

#[test]
fn activation_keeps_its_tensor() {
    let t = Tensor::zeros((2, 5), DType::F32, &Device::Cpu).unwrap();
    let a = Activation::new(t);
    assert_eq!(a.dims(), &vec![2, 5]);
    assert_eq!(a.tensor().dims(), &[2, 5]);
}

#[test]
fn loader_error_is_returned_unchanged() {
    let vb = zeros();
    let seen: RefCell<Vec<String>> = RefCell::new(Vec::new());
    let load = |r: &ParamRequest| -> candle_core::Result<Loaded> {
        let p = r.path.join(".");
        seen.borrow_mut().push(p.clone());
        if p == "layer2.0.conv1" {
            Err(candle_core::Error::Msg("no weights for layer2.0.conv1".to_string()))
        } else {
            load_from(&vb, r)
        }
    };
    match resnet18(&load, 10) {
        Err(NetError::Candle(e)) => assert_eq!(e.to_string(), "no weights for layer2.0.conv1"),
        _ => panic!("the loader's error is expected"),
    }
    assert_eq!(seen.borrow().last().map(|s| s.as_str()), Some("layer2.0.conv1"));
}

#[test]
fn mismatch_follows_a_layer_from_the_loader() {
    let vb = zeros();
    let load = |r: &ParamRequest| -> candle_core::Result<Loaded> {
        if r.path.join(".") == "fc" {
            Ok(Loaded::Linear(LinearAnswer::new(candle_nn::linear(512, 5, vb.clone())?)))
        } else {
            load_from(&vb, r)
        }
    };
    assert!(matches!(resnet18(&load, 10), Err(NetError::LayerMismatch)));
    assert!(resnet18_no_final_layer(&load).is_ok());
}

fn a_conv(cfg: candle_nn::Conv2dConfig, in_c: usize, out_c: usize, k: usize, bias: bool) -> ConvAnswer {
    let layer = if bias {
        candle_nn::conv2d(in_c, out_c, k, cfg, zeros()).unwrap()
    } else {
        candle_nn::conv2d_no_bias(in_c, out_c, k, cfg, zeros()).unwrap()
    };
    ConvAnswer::new(layer)
}

fn cfg(padding: usize, stride: usize, dilation: usize, groups: usize) -> candle_nn::Conv2dConfig {
    candle_nn::Conv2dConfig { padding, stride, dilation, groups, ..Default::default() }
}

#[test]
fn accept_conv_takes_fitting_parts() {
    assert!(accept_conv(a_conv(cfg(1, 2, 1, 1), 4, 8, 3, false), path(&["c"]), 4, 8, 3, 1, 2).is_ok());
}

#[test]
fn accept_conv_checks_every_part() {
    let mismatch = |a: ConvAnswer| matches!(accept_conv(a, path(&["c"]), 4, 8, 3, 1, 2), Err(NetError::LayerMismatch));
    assert!(mismatch(a_conv(cfg(1, 2, 1, 1), 4, 8, 1, false)));
    assert!(mismatch(a_conv(cfg(1, 2, 1, 1), 8, 4, 3, false)));
    assert!(mismatch(a_conv(cfg(0, 2, 1, 1), 4, 8, 3, false)));
    assert!(mismatch(a_conv(cfg(1, 1, 1, 1), 4, 8, 3, false)));
    assert!(mismatch(a_conv(cfg(1, 2, 2, 1), 4, 8, 3, false)));
    assert!(mismatch(a_conv(cfg(1, 2, 1, 2), 4, 8, 3, false)));
    assert!(mismatch(a_conv(cfg(1, 2, 1, 1), 4, 8, 3, true)));
}

#[test]
fn accept_norm_wants_statistics_weight_and_bias() {
    let bn = || NormAnswer::new(candle_nn::batch_norm(6, 1e-5, zeros()).unwrap());
    assert!(accept_norm(bn(), path(&["n"]), 6).is_ok());
    assert!(matches!(accept_norm(bn(), path(&["n"]), 5), Err(NetError::LayerMismatch)));
    let bare = candle_nn::BatchNormConfig { affine: false, ..Default::default() };
    let no_affine = NormAnswer::new(candle_nn::batch_norm(6, bare, zeros()).unwrap());
    assert!(matches!(accept_norm(no_affine, path(&["n"]), 6), Err(NetError::LayerMismatch)));
}

#[test]
fn accept_linear_wants_weight_and_bias() {
    let l = || LinearAnswer::new(candle_nn::linear(3, 2, zeros()).unwrap());
    assert!(accept_linear(l(), path(&["fc"]), 3, 2).is_ok());
    assert!(matches!(accept_linear(l(), path(&["fc"]), 2, 3), Err(NetError::LayerMismatch)));
    let no_bias = LinearAnswer::new(candle_nn::linear_no_bias(3, 2, zeros()).unwrap());
    assert!(matches!(accept_linear(no_bias, path(&["fc"]), 3, 2), Err(NetError::LayerMismatch)));
}

#[test]
fn batch_norm_without_affine_parameters_is_a_mismatch() {
    let vb = zeros();
    let load = |r: &ParamRequest| -> candle_core::Result<Loaded> {
        match &r.kind {
            ParamKind::BatchNorm { num_features } => {
                let cfg = candle_nn::BatchNormConfig { affine: false, ..Default::default() };
                Ok(Loaded::BatchNorm(NormAnswer::new(candle_nn::batch_norm(*num_features, cfg, vb.clone())?)))
            }
            _ => load_from(&vb, r),
        }
    };
    assert!(matches!(resnet18(&load, 10), Err(NetError::LayerMismatch)));
}

#[test]
fn empty_stack_hands_the_input_back() {
    let s: Sequential<BasicBlock> = resnet::sequential::seq(0);
    let y = s.forward(&filled(&[1, 2, 3, 3], 0.5)).ok().unwrap();
    assert_eq!(y.dims(), &vec![1, 2, 3, 3]);
    assert!(values(y).iter().all(|v| *v == 0.5));
    let b: Sequential<BottleneckBlock> = resnet::sequential::seq(0);
    assert!(b.forward(&filled(&[1, 2], -1.0)).is_ok());
}

#[test]
fn blocks_tell_which_inputs_would_panic() {
    let vb = zeros();
    let load = |r: &ParamRequest| load_from(&vb, r);
    let block = BasicBlock::new(&load, &path(&["b"]), 4, 8, 2).ok().unwrap();
    assert!(block.can_run(&vec![1, 4, 1, 1]));
    assert!(!block.can_run(&vec![1, 4, 0, 3]));
    assert!(block.can_run(&vec![1, 5, 0, 0]));
    let zero_stride = BasicBlock::new(&load, &path(&["z"]), 4, 4, 0).ok().unwrap();
    assert!(!zero_stride.can_run(&vec![1, 4, 3, 3]));
    let bottleneck = BottleneckBlock::new(&load, &path(&["n"]), 8, 8, 1, 1).ok().unwrap();
    assert!(bottleneck.can_run(&vec![1, 8, 2, 2]));
    assert!(!bottleneck.can_run(&vec![1, 8, 0, 2]));
    let ds = Downsample::new(&load, &path(&["d"]), 4, 4, 1).ok().unwrap();
    assert!(ds.can_run(&vec![1, 4, 0, 0]));
}

#[test]
fn stacks_tell_which_inputs_would_panic() {
    let vb = zeros();
    let load = |r: &ParamRequest| load_from(&vb, r);
    let mut s: Sequential<BasicBlock> = resnet::sequential::seq(2);
    s.push(BasicBlock::new(&load, &path(&["a"]), 4, 4, 1).ok().unwrap());
    s.push(BasicBlock::new(&load, &path(&["b"]), 4, 4, 1).ok().unwrap());
    assert!(s.can_run(&vec![1, 4, 2, 2]));
    assert!(!s.can_run(&vec![1, 4, 0, 2]));
    assert!(s.can_run(&vec![1, 3, 0, 0]));
    let y = s.forward(&input(&[1, 4, 2, 2])).ok().unwrap();
    assert_eq!(y.dims(), &vec![1, 4, 2, 2]);
}

#[test]
fn headless_network_requests_everything_but_fc() {
    let vb = zeros();
    let seen: RefCell<Vec<(String, bool)>> = RefCell::new(Vec::new());
    let load = |r: &ParamRequest| {
        seen.borrow_mut().push((r.path.join("."), matches!(r.kind, ParamKind::Linear { .. })));
        load_from(&vb, r)
    };
    let _net = resnet18_no_final_layer(&load).ok().unwrap();
    let seen = seen.into_inner();
    assert_eq!(seen.len(), 40);
    assert!(!seen.iter().any(|(p, linear)| *linear || p == "fc"));
}

#[test]
fn first_failing_request_decides_the_error() {
    let vb = zeros();
    let load = |r: &ParamRequest| -> candle_core::Result<Loaded> {
        let p = r.path.join(".");
        if p == "layer2.0.conv1" || p == "layer3.0.conv1" || p == "fc" {
            Err(candle_core::Error::Msg(format!("no weights for {}", p)))
        } else {
            load_from(&vb, r)
        }
    };
    match resnet34(&load, 10) {
        Err(NetError::Candle(e)) => assert_eq!(e.to_string(), "no weights for layer2.0.conv1"),
        _ => panic!("the first failure is expected"),
    }
}

#[test]
fn bottleneck_block_requests_a_wide_last_convolution() {
    let vb = zeros();
    let seen: RefCell<Vec<(String, usize)>> = RefCell::new(Vec::new());
    let load = |r: &ParamRequest| {
        let width = match &r.kind {
            ParamKind::Conv2d { out_channels, .. } => *out_channels,
            ParamKind::BatchNorm { num_features } => *num_features,
            ParamKind::Linear { out_dim, .. } => *out_dim,
        };
        seen.borrow_mut().push((r.path.join("."), width));
        load_from(&vb, r)
    };
    let _block = BottleneckBlock::new(&load, &path(&["b"]), 64, 32, 1, 4).ok().unwrap();
    let seen = seen.into_inner();
    let names: Vec<&str> = seen.iter().map(|(p, _)| p.as_str()).collect();
    assert_eq!(names, vec!["b.conv1", "b.bn1", "b.conv2", "b.bn2", "b.conv3", "b.bn3", "b.downsample.0", "b.downsample.1"]);
    assert_eq!(seen[4].1, 128);
    assert_eq!(seen[5].1, 128);
    assert_eq!(seen[6].1, 128);
}
