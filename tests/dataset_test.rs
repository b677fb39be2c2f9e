use polarlight::data::convert_byte_arr_to_u32;
use polarlight::dataloader::Dataloader;
use polarlight::dataset::{Dataset, DatasetError, MNIST};
use polarlight::nn::ReLU;

fn be(n: u32) -> [u8; 4] {
    n.to_be_bytes()
}

/// An image file and a label file in the IDX layout, with `count` images of
/// `rows` by `cols` pixels; pixel `p` of image `i` is `(i + p) % 256` and
/// label `i` is `i % 10`.
fn idx_files(count: u32, rows: u32, cols: u32) -> (Vec<u8>, Vec<u8>) {
    let mut images = vec![0, 0, 8, 3];
    images.extend_from_slice(&be(count));
    images.extend_from_slice(&be(rows));
    images.extend_from_slice(&be(cols));
    let size = (rows * cols) as usize;
    for i in 0..count as usize {
        for p in 0..size {
            images.push(((i + p) % 256) as u8);
        }
    }
    let mut labels = vec![0, 0, 8, 1];
    labels.extend_from_slice(&be(count));
    for i in 0..count {
        labels.push((i % 10) as u8);
    }
    (images, labels)
}

#[test]
fn generate_mnist_dataset() {
    let (images, labels) = idx_files(10000, 28, 28);
    if let Ok(mnist_test) = MNIST::new(true, images, labels) {
        let dataset_length = mnist_test.len();
        assert_eq!(dataset_length, 10000);

        if let Ok(dataset_item) = mnist_test.get_item(0) {
            assert_eq!(dataset_item.row(), 28);
            assert_eq!(dataset_item.image().len(), 784);
        }
    } else {
        panic!("well-formed files were refused");
    }
}

#[test]
fn dataloader_initialization() {
    let (images, labels) = idx_files(3, 2, 2);
    let dataset = match MNIST::new(true, images, labels) {
        Ok(dataset) => dataset,
        Err(e) => {
            panic!("Error occurred when initializing MNIST dataset: {:?}", e);
        }
    };

    let dataloader: Dataloader<MNIST> = Dataloader::new(dataset);
    assert_eq!(dataloader.next_idx(), 0);
}

#[test]
fn get_item_reads_image_and_label() {
    let (images, labels) = idx_files(3, 2, 3);
    let mnist = MNIST::new(false, images, labels).unwrap();
    assert_eq!(mnist.len(), 3);
    assert_eq!(mnist.get_dim(), vec![2, 3]);
    let item = mnist.get_item(2).unwrap();
    assert_eq!(item.image(), vec![2, 3, 4, 5, 6, 7]);
    assert_eq!(item.label(), 2);
    assert_eq!(item.row(), 2);
    assert_eq!(mnist.get_item(3).err(), Some(DatasetError::IndexOutOfBounds));
}

#[test]
fn new_rejects_short_files() {
    let (images, labels) = idx_files(3, 2, 2);
    let mut short_images = images.clone();
    short_images.pop();
    assert_eq!(
        MNIST::new(true, short_images, labels.clone()).err(),
        Some(DatasetError::Malformed)
    );
    let mut short_labels = labels.clone();
    short_labels.pop();
    assert_eq!(
        MNIST::new(true, images.clone(), short_labels).err(),
        Some(DatasetError::Malformed)
    );
    assert_eq!(
        MNIST::new(true, images[..10].to_vec(), labels).err(),
        Some(DatasetError::Malformed)
    );
}

#[test]
fn empty_dataset_has_no_items() {
    let (images, labels) = idx_files(0, 28, 28);
    let mnist = MNIST::new(true, images, labels).unwrap();
    assert_eq!(mnist.len(), 0);
    assert_eq!(mnist.get_item(0).err(), Some(DatasetError::IndexOutOfBounds));
}

#[test]
fn bytes_read_in_both_orders() {
    let bytes = [9u8, 0x12, 0x34, 0x56, 0x78];
    assert_eq!(convert_byte_arr_to_u32(&bytes, 1, true), 0x1234_5678);
    assert_eq!(convert_byte_arr_to_u32(&bytes, 1, false), 0x7856_3412);
    assert_eq!(convert_byte_arr_to_u32(&[0xff; 4], 0, true), u32::MAX);
}

#[test]
fn relu_describes_itself() {
    let relu = ReLU { module_name: String::from("ReLU : 1") };
    assert_eq!(relu.describe(), "module_name: ReLU : 1");
}

#[test]
fn render_draws_label_and_picture() {
    let (images, labels) = idx_files(1, 2, 2);
    let mnist = MNIST::new(true, images, labels).unwrap();
    let item = mnist.get_item(0).unwrap();
    assert_eq!(item.render(), "label: 0\nimage:\n *\n**\n");
}

#[test]
fn render_writes_multi_digit_labels() {
    let mut images = vec![0, 0, 8, 3];
    images.extend_from_slice(&be(1));
    images.extend_from_slice(&be(1));
    images.extend_from_slice(&be(3));
    images.extend_from_slice(&[5, 0, 7]);
    let mut labels = vec![0, 0, 8, 1];
    labels.extend_from_slice(&be(1));
    labels.push(123);
    let mnist = MNIST::new(true, images, labels).unwrap();
    let item = mnist.get_item(0).unwrap();
    assert_eq!(item.label(), 123);
    assert_eq!(item.row(), 1);
    assert_eq!(item.render(), "label: 123\nimage:\n*\n \n*\n");
}

#[test]
fn linear_describes_itself() {
    let weights = polarlight::tensor::Tensor::build(vec![2, 2], vec![1i64, 2, 3, 4]).unwrap();
    let bias = polarlight::tensor::Tensor::build(vec![2], vec![1i64, 1]).unwrap();
    let linear = polarlight::nn::Linear {
        in_features: 2,
        out_features: -3,
        weights,
        bias,
        module_name: String::from("Linear : 1"),
    };
    assert_eq!(
        linear.describe(),
        "module_name: Linear : 1\nin_features: 2\nout_features:-3"
    );
}
