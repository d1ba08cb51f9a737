use embedded_hal::spi::{ErrorKind, SpiDevice};
use embedded_hal_mock::eh1::spi::{Mock as SpiMock, Transaction as SpiTransaction};
use p9813::{Transport, P9813};

/// An SPI device as the transport of a chain: each write is one transaction
/// on the bus.
struct OverSpi<SPI>(SPI);

impl<SPI: SpiDevice<u8>> Transport for OverSpi<SPI> {
    type Error = SPI::Error;

    fn transmit(&mut self, bytes: &[u8]) -> Result<(), SPI::Error> {
        self.0.write(bytes)
    }
}

fn one_write(bytes: Vec<u8>) -> [SpiTransaction<u8>; 3] {
    [
        SpiTransaction::transaction_start(),
        SpiTransaction::write_vec(bytes),
        SpiTransaction::transaction_end(),
    ]
}

#[test]
fn set_color_on_spi_device() {
    let expected = [
        one_write(vec![0x00, 0x00, 0x00, 0x00]),
        one_write(vec![0b11000011, 200, 255, 0]),
        one_write(vec![0x00, 0x00, 0x00, 0x00]),
    ]
    .concat();
    let spi = SpiMock::new(&expected);
    let mut p9813 = P9813::new(OverSpi(spi));
    let res: Result<(), ErrorKind> = p9813.set_color(0, 255, 200);
    assert_eq!(res, Ok(()));
    let mut spi = p9813.release().0;
    spi.done();
}

#[test]
fn set_colors_on_spi_device() {
    let expected = [
        one_write(vec![0x00, 0x00, 0x00, 0x00]),
        one_write(vec![0b11000011, 200, 255, 0]),
        one_write(vec![0b11111100, 20, 50, 255]),
        one_write(vec![0x00, 0x00, 0x00, 0x00]),
    ]
    .concat();
    let spi = SpiMock::new(&expected);
    let mut p9813 = P9813::new(OverSpi(spi));
    let res: Result<(), ErrorKind> = p9813.set_colors(&[(0, 255, 200), (255, 50, 20)]);
    assert_eq!(res, Ok(()));
    let mut spi = p9813.release().0;
    spi.done();
}

#[test]
fn set_colors_of_empty_chain_on_spi_device() {
    let expected = [
        one_write(vec![0x00, 0x00, 0x00, 0x00]),
        one_write(vec![0x00, 0x00, 0x00, 0x00]),
    ]
    .concat();
    let spi = SpiMock::new(&expected);
    let mut p9813 = P9813::new(OverSpi(spi));
    assert_eq!(p9813.set_colors(&[]), Ok(()));
    let mut spi = p9813.release().0;
    spi.done();
}
