use virtio_bindings::{virtio_blk, virtio_config, virtio_ids, virtio_mmio, virtio_net, virtio_ring};
use whp_vmm::devices::virtio::bindings::win_to_linux_errno;
use whp_vmm::devices::virtio::block::worker as block;
use whp_vmm::devices::virtio::console::device::CONSOLE_FEATURES;
use whp_vmm::devices::virtio::device::{
    TYPE_BLOCK, TYPE_CONSOLE, TYPE_NET, TYPE_RNG, VIRTIO_F_VERSION_1, VIRTIO_RING_F_EVENT_IDX,
};
use whp_vmm::devices::virtio::mmio;
use whp_vmm::devices::virtio::net::device::NET_FEATURES;
use whp_vmm::devices::virtio::queue;
use whp_vmm::devices::virtio::rng::device::RNG_FEATURES;

#[test]
fn constants_are_those_of_virtio() {
    assert_eq!(TYPE_NET, virtio_ids::VIRTIO_ID_NET);
    assert_eq!(TYPE_BLOCK, virtio_ids::VIRTIO_ID_BLOCK);
    assert_eq!(TYPE_CONSOLE, virtio_ids::VIRTIO_ID_CONSOLE);
    assert_eq!(TYPE_RNG, virtio_ids::VIRTIO_ID_RNG);
    assert_eq!(VIRTIO_F_VERSION_1, virtio_config::VIRTIO_F_VERSION_1);
    assert_eq!(VIRTIO_RING_F_EVENT_IDX, virtio_ring::VIRTIO_RING_F_EVENT_IDX);
    assert_eq!(queue::VIRTQ_DESC_F_NEXT as u32, virtio_ring::VRING_DESC_F_NEXT);
    assert_eq!(queue::VIRTQ_DESC_F_WRITE as u32, virtio_ring::VRING_DESC_F_WRITE);
    assert_eq!(queue::VRING_USED_F_NO_NOTIFY as u32, virtio_ring::VRING_USED_F_NO_NOTIFY);
    assert_eq!(mmio::VIRTIO_MMIO_INT_VRING, virtio_mmio::VIRTIO_MMIO_INT_VRING);
    assert_eq!(mmio::VIRTIO_MMIO_INT_CONFIG, virtio_mmio::VIRTIO_MMIO_INT_CONFIG);
    assert_eq!(mmio::ACKNOWLEDGE, virtio_config::VIRTIO_CONFIG_S_ACKNOWLEDGE);
    assert_eq!(mmio::DRIVER, virtio_config::VIRTIO_CONFIG_S_DRIVER);
    assert_eq!(mmio::DRIVER_OK, virtio_config::VIRTIO_CONFIG_S_DRIVER_OK);
    assert_eq!(mmio::FEATURES_OK, virtio_config::VIRTIO_CONFIG_S_FEATURES_OK);
    assert_eq!(mmio::FAILED, virtio_config::VIRTIO_CONFIG_S_FAILED);
}

#[test]
fn block_constants_are_those_of_virtio() {
    assert_eq!(block::VIRTIO_BLK_T_IN, virtio_blk::VIRTIO_BLK_T_IN);
    assert_eq!(block::VIRTIO_BLK_T_OUT, virtio_blk::VIRTIO_BLK_T_OUT);
    assert_eq!(block::VIRTIO_BLK_T_FLUSH, virtio_blk::VIRTIO_BLK_T_FLUSH);
    assert_eq!(block::VIRTIO_BLK_T_GET_ID, virtio_blk::VIRTIO_BLK_T_GET_ID);
    assert_eq!(block::VIRTIO_BLK_T_DISCARD, virtio_blk::VIRTIO_BLK_T_DISCARD);
    assert_eq!(block::VIRTIO_BLK_T_WRITE_ZEROES, virtio_blk::VIRTIO_BLK_T_WRITE_ZEROES);
    assert_eq!(block::VIRTIO_BLK_S_OK as u32, virtio_blk::VIRTIO_BLK_S_OK);
    assert_eq!(block::VIRTIO_BLK_S_IOERR as u32, virtio_blk::VIRTIO_BLK_S_IOERR);
}

#[test]
fn device_features() {
    let version_1 = 1u64 << virtio_config::VIRTIO_F_VERSION_1;
    assert_eq!(CONSOLE_FEATURES, version_1 | 1);
    assert_eq!(NET_FEATURES, version_1 | 1 << virtio_net::VIRTIO_NET_F_MAC);
    assert_eq!(RNG_FEATURES, version_1);
}

#[test]
fn host_errors_map_to_guest_errors() {
    assert_eq!(win_to_linux_errno(2), 2);
    assert_eq!(win_to_linux_errno(5), 13);
    assert_eq!(win_to_linux_errno(80), 17);
    assert_eq!(win_to_linux_errno(145), 39);
    assert_eq!(win_to_linux_errno(999_999), 5);
}
