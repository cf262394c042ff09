//! The curated extended lookup table, exercised end to end: tabulated keys
//! come back from the table and everything else falls through to the
//! continued-fraction computation.

use oddsidizer::{decimal_to_fractional_custom, ConversionConfig, Dec};

#[test]
fn extended_lookup_test() {
    let config = &ConversionConfig::default().extended_lookup();
    assert_eq!(decimal_to_fractional_custom(Dec::new(10010, 4), config), Ok((1, 1000)));
    assert_eq!(decimal_to_fractional_custom(Dec::new(10013, 4), config), Ok((1, 750)));
    assert_eq!(decimal_to_fractional_custom(Dec::new(10020, 4), config), Ok((1, 500)));
    assert_eq!(decimal_to_fractional_custom(Dec::new(10025, 4), config), Ok((1, 400)));
    assert_eq!(decimal_to_fractional_custom(Dec::new(10030, 4), config), Ok((1, 300)));
    assert_eq!(decimal_to_fractional_custom(Dec::new(10040, 4), config), Ok((1, 250)));
    assert_eq!(decimal_to_fractional_custom(Dec::new(10050, 4), config), Ok((1, 200)));
    assert_eq!(decimal_to_fractional_custom(Dec::new(10070, 4), config), Ok((1, 150)));
    assert_eq!(decimal_to_fractional_custom(Dec::new(10100, 4), config), Ok((1, 100)));
    assert_eq!(decimal_to_fractional_custom(Dec::new(10120, 4), config), Ok((1, 80)));
    assert_eq!(decimal_to_fractional_custom(Dec::new(10150, 4), config), Ok((1, 66)));
    assert_eq!(decimal_to_fractional_custom(Dec::new(10200, 4), config), Ok((1, 50)));
    assert_eq!(decimal_to_fractional_custom(Dec::new(10250, 4), config), Ok((1, 40)));
    assert_eq!(decimal_to_fractional_custom(Dec::new(10300, 4), config), Ok((1, 33)));
    assert_eq!(decimal_to_fractional_custom(Dec::new(10400, 4), config), Ok((1, 25)));
    assert_eq!(decimal_to_fractional_custom(Dec::new(10500, 4), config), Ok((1, 20)));
    assert_eq!(decimal_to_fractional_custom(Dec::new(10550, 4), config), Ok((1, 18)));
    assert_eq!(decimal_to_fractional_custom(Dec::new(10600, 4), config), Ok((1, 16)));
    assert_eq!(decimal_to_fractional_custom(Dec::new(10700, 4), config), Ok((1, 14)));
    assert_eq!(decimal_to_fractional_custom(Dec::new(10800, 4), config), Ok((1, 12)));
    assert_eq!(decimal_to_fractional_custom(Dec::new(10900, 4), config), Ok((1, 11)));
    assert_eq!(decimal_to_fractional_custom(Dec::new(11000, 4), config), Ok((1, 10)));
    assert_eq!(decimal_to_fractional_custom(Dec::new(11100, 4), config), Ok((1, 9)));
    assert_eq!(decimal_to_fractional_custom(Dec::new(11200, 4), config), Ok((1, 8)));
    assert_eq!(decimal_to_fractional_custom(Dec::new(11300, 4), config), Ok((2, 15)));
    assert_eq!(decimal_to_fractional_custom(Dec::new(11400, 4), config), Ok((1, 7)));
    assert_eq!(decimal_to_fractional_custom(Dec::new(11500, 4), config), Ok((2, 13)));
    assert_eq!(decimal_to_fractional_custom(Dec::new(11600, 4), config), Ok((1, 6)));
    assert_eq!(decimal_to_fractional_custom(Dec::new(11800, 4), config), Ok((2, 11)));
    assert_eq!(decimal_to_fractional_custom(Dec::new(11900, 4), config), Ok((19, 100)));
    assert_eq!(decimal_to_fractional_custom(Dec::new(12000, 4), config), Ok((1, 5)));
    assert_eq!(decimal_to_fractional_custom(Dec::new(12100, 4), config), Ok((21, 100)));
    assert_eq!(decimal_to_fractional_custom(Dec::new(12200, 4), config), Ok((2, 9)));
    assert_eq!(decimal_to_fractional_custom(Dec::new(12300, 4), config), Ok((23, 100)));
    assert_eq!(decimal_to_fractional_custom(Dec::new(12400, 4), config), Ok((6, 25)));
    assert_eq!(decimal_to_fractional_custom(Dec::new(12500, 4), config), Ok((1, 4)));
    assert_eq!(decimal_to_fractional_custom(Dec::new(12600, 4), config), Ok((13, 50)));
    assert_eq!(decimal_to_fractional_custom(Dec::new(12700, 4), config), Ok((27, 100)));
    assert_eq!(decimal_to_fractional_custom(Dec::new(12900, 4), config), Ok((2, 7)));
    assert_eq!(decimal_to_fractional_custom(Dec::new(13000, 4), config), Ok((3, 10)));
    assert_eq!(decimal_to_fractional_custom(Dec::new(13100, 4), config), Ok((31, 100)));
    assert_eq!(decimal_to_fractional_custom(Dec::new(13200, 4), config), Ok((8, 25)));
    assert_eq!(decimal_to_fractional_custom(Dec::new(13300, 4), config), Ok((1, 3)));
    assert_eq!(decimal_to_fractional_custom(Dec::new(13400, 4), config), Ok((17, 50)));
    assert_eq!(decimal_to_fractional_custom(Dec::new(13500, 4), config), Ok((7, 20)));
    assert_eq!(decimal_to_fractional_custom(Dec::new(13600, 4), config), Ok((4, 11)));
    assert_eq!(decimal_to_fractional_custom(Dec::new(13700, 4), config), Ok((37, 100)));
    assert_eq!(decimal_to_fractional_custom(Dec::new(13800, 4), config), Ok((19, 50)));
    assert_eq!(decimal_to_fractional_custom(Dec::new(13900, 4), config), Ok((39, 100)));
    assert_eq!(decimal_to_fractional_custom(Dec::new(14000, 4), config), Ok((2, 5)));
    assert_eq!(decimal_to_fractional_custom(Dec::new(14100, 4), config), Ok((41, 100)));
    assert_eq!(decimal_to_fractional_custom(Dec::new(14200, 4), config), Ok((21, 50)));
    assert_eq!(decimal_to_fractional_custom(Dec::new(14300, 4), config), Ok((43, 100)));
    assert_eq!(decimal_to_fractional_custom(Dec::new(14400, 4), config), Ok((4, 9)));
    assert_eq!(decimal_to_fractional_custom(Dec::new(14500, 4), config), Ok((9, 20)));
    assert_eq!(decimal_to_fractional_custom(Dec::new(14600, 4), config), Ok((23, 50)));
    assert_eq!(decimal_to_fractional_custom(Dec::new(14700, 4), config), Ok((40, 85)));
    assert_eq!(decimal_to_fractional_custom(Dec::new(14800, 4), config), Ok((12, 25)));
    assert_eq!(decimal_to_fractional_custom(Dec::new(14900, 4), config), Ok((49, 100)));
    assert_eq!(decimal_to_fractional_custom(Dec::new(15000, 4), config), Ok((1, 2)));
    assert_eq!(decimal_to_fractional_custom(Dec::new(15100, 4), config), Ok((51, 100)));
    assert_eq!(decimal_to_fractional_custom(Dec::new(15200, 4), config), Ok((13, 25)));
    assert_eq!(decimal_to_fractional_custom(Dec::new(15300, 4), config), Ok((8, 15)));
    assert_eq!(decimal_to_fractional_custom(Dec::new(15400, 4), config), Ok((27, 50)));
    assert_eq!(decimal_to_fractional_custom(Dec::new(15500, 4), config), Ok((11, 20)));
    assert_eq!(decimal_to_fractional_custom(Dec::new(15600, 4), config), Ok((14, 25)));
    assert_eq!(decimal_to_fractional_custom(Dec::new(15700, 4), config), Ok((4, 7)));
    assert_eq!(decimal_to_fractional_custom(Dec::new(15800, 4), config), Ok((29, 50)));
    assert_eq!(decimal_to_fractional_custom(Dec::new(15900, 4), config), Ok((59, 100)));
    assert_eq!(decimal_to_fractional_custom(Dec::new(16000, 4), config), Ok((3, 5)));
    assert_eq!(decimal_to_fractional_custom(Dec::new(16100, 4), config), Ok((8, 13)));
    assert_eq!(decimal_to_fractional_custom(Dec::new(16300, 4), config), Ok((63, 100)));
    assert_eq!(decimal_to_fractional_custom(Dec::new(16400, 4), config), Ok((16, 25)));
    assert_eq!(decimal_to_fractional_custom(Dec::new(16500, 4), config), Ok((13, 20)));
    assert_eq!(decimal_to_fractional_custom(Dec::new(16600, 4), config), Ok((4, 6)));
    assert_eq!(decimal_to_fractional_custom(Dec::new(16800, 4), config), Ok((34, 50)));
    assert_eq!(decimal_to_fractional_custom(Dec::new(16900, 4), config), Ok((69, 100)));
    assert_eq!(decimal_to_fractional_custom(Dec::new(17000, 4), config), Ok((7, 10)));
    assert_eq!(decimal_to_fractional_custom(Dec::new(17100, 4), config), Ok((71, 100)));
    assert_eq!(decimal_to_fractional_custom(Dec::new(17200, 4), config), Ok((8, 11)));
    assert_eq!(decimal_to_fractional_custom(Dec::new(17400, 4), config), Ok((37, 50)));
    assert_eq!(decimal_to_fractional_custom(Dec::new(17500, 4), config), Ok((3, 4)));
    assert_eq!(decimal_to_fractional_custom(Dec::new(17600, 4), config), Ok((19, 25)));
    assert_eq!(decimal_to_fractional_custom(Dec::new(17700, 4), config), Ok((77, 100)));
    assert_eq!(decimal_to_fractional_custom(Dec::new(17800, 4), config), Ok((39, 50)));
    assert_eq!(decimal_to_fractional_custom(Dec::new(17900, 4), config), Ok((79, 100)));
    assert_eq!(decimal_to_fractional_custom(Dec::new(18000, 4), config), Ok((4, 5)));
    assert_eq!(decimal_to_fractional_custom(Dec::new(18100, 4), config), Ok((81, 100)));
    assert_eq!(decimal_to_fractional_custom(Dec::new(18200, 4), config), Ok((41, 50)));
    assert_eq!(decimal_to_fractional_custom(Dec::new(18300, 4), config), Ok((5, 6)));
    assert_eq!(decimal_to_fractional_custom(Dec::new(18400, 4), config), Ok((21, 25)));
    assert_eq!(decimal_to_fractional_custom(Dec::new(18500, 4), config), Ok((17, 20)));
    assert_eq!(decimal_to_fractional_custom(Dec::new(18600, 4), config), Ok((20, 23)));
    assert_eq!(decimal_to_fractional_custom(Dec::new(18700, 4), config), Ok((87, 100)));
    assert_eq!(decimal_to_fractional_custom(Dec::new(18800, 4), config), Ok((22, 25)));
    assert_eq!(decimal_to_fractional_custom(Dec::new(18900, 4), config), Ok((89, 100)));
    assert_eq!(decimal_to_fractional_custom(Dec::new(19000, 4), config), Ok((9, 10)));
    assert_eq!(decimal_to_fractional_custom(Dec::new(19100, 4), config), Ok((10, 11)));
    assert_eq!(decimal_to_fractional_custom(Dec::new(19200, 4), config), Ok((23, 25)));
    assert_eq!(decimal_to_fractional_custom(Dec::new(19300, 4), config), Ok((93, 100)));
    assert_eq!(decimal_to_fractional_custom(Dec::new(19400, 4), config), Ok((47, 50)));
    assert_eq!(decimal_to_fractional_custom(Dec::new(19500, 4), config), Ok((20, 21)));
    assert_eq!(decimal_to_fractional_custom(Dec::new(19600, 4), config), Ok((24, 25)));
    assert_eq!(decimal_to_fractional_custom(Dec::new(19700, 4), config), Ok((97, 100)));
    assert_eq!(decimal_to_fractional_custom(Dec::new(19800, 4), config), Ok((49, 50)));
    assert_eq!(decimal_to_fractional_custom(Dec::new(19900, 4), config), Ok((99, 100)));
    assert_eq!(decimal_to_fractional_custom(Dec::new(20000, 4), config), Ok((1, 1)));
    assert_eq!(decimal_to_fractional_custom(Dec::new(20100, 4), config), Ok((101, 100)));
    assert_eq!(decimal_to_fractional_custom(Dec::new(20200, 4), config), Ok((51, 50)));
    assert_eq!(decimal_to_fractional_custom(Dec::new(20300, 4), config), Ok((103, 100)));
    assert_eq!(decimal_to_fractional_custom(Dec::new(20400, 4), config), Ok((26, 25)));
    assert_eq!(decimal_to_fractional_custom(Dec::new(20500, 4), config), Ok((21, 20)));
    assert_eq!(decimal_to_fractional_custom(Dec::new(20600, 4), config), Ok((53, 50)));
    assert_eq!(decimal_to_fractional_custom(Dec::new(20700, 4), config), Ok((107, 100)));
    assert_eq!(decimal_to_fractional_custom(Dec::new(20800, 4), config), Ok((27, 25)));
    assert_eq!(decimal_to_fractional_custom(Dec::new(20900, 4), config), Ok((109, 100)));
    assert_eq!(decimal_to_fractional_custom(Dec::new(21000, 4), config), Ok((11, 10)));
    assert_eq!(decimal_to_fractional_custom(Dec::new(21100, 4), config), Ok((111, 100)));
    assert_eq!(decimal_to_fractional_custom(Dec::new(21200, 4), config), Ok((28, 25)));
    assert_eq!(decimal_to_fractional_custom(Dec::new(21300, 4), config), Ok((113, 100)));
    assert_eq!(decimal_to_fractional_custom(Dec::new(21400, 4), config), Ok((57, 50)));
    assert_eq!(decimal_to_fractional_custom(Dec::new(21500, 4), config), Ok((23, 20)));
    assert_eq!(decimal_to_fractional_custom(Dec::new(21600, 4), config), Ok((29, 25)));
    assert_eq!(decimal_to_fractional_custom(Dec::new(21700, 4), config), Ok((117, 100)));
    assert_eq!(decimal_to_fractional_custom(Dec::new(21800, 4), config), Ok((59, 50)));
    assert_eq!(decimal_to_fractional_custom(Dec::new(21900, 4), config), Ok((119, 100)));
    assert_eq!(decimal_to_fractional_custom(Dec::new(22000, 4), config), Ok((6, 5)));
    assert_eq!(decimal_to_fractional_custom(Dec::new(22100, 4), config), Ok((121, 100)));
    assert_eq!(decimal_to_fractional_custom(Dec::new(22200, 4), config), Ok((61, 50)));
    assert_eq!(decimal_to_fractional_custom(Dec::new(22300, 4), config), Ok((123, 100)));
    assert_eq!(decimal_to_fractional_custom(Dec::new(22400, 4), config), Ok((31, 25)));
    assert_eq!(decimal_to_fractional_custom(Dec::new(22500, 4), config), Ok((5, 4)));
    assert_eq!(decimal_to_fractional_custom(Dec::new(22600, 4), config), Ok((63, 50)));
    assert_eq!(decimal_to_fractional_custom(Dec::new(22700, 4), config), Ok((127, 100)));
    assert_eq!(decimal_to_fractional_custom(Dec::new(22800, 4), config), Ok((32, 25)));
    assert_eq!(decimal_to_fractional_custom(Dec::new(23000, 4), config), Ok((13, 10)));
    assert_eq!(decimal_to_fractional_custom(Dec::new(23200, 4), config), Ok((33, 25)));
    assert_eq!(decimal_to_fractional_custom(Dec::new(23400, 4), config), Ok((67, 50)));
    assert_eq!(decimal_to_fractional_custom(Dec::new(23500, 4), config), Ok((27, 20)));
    assert_eq!(decimal_to_fractional_custom(Dec::new(23600, 4), config), Ok((34, 25)));
    assert_eq!(decimal_to_fractional_custom(Dec::new(23700, 4), config), Ok((11, 8)));
    assert_eq!(decimal_to_fractional_custom(Dec::new(24000, 4), config), Ok((7, 5)));
    assert_eq!(decimal_to_fractional_custom(Dec::new(24200, 4), config), Ok((71, 50)));
    assert_eq!(decimal_to_fractional_custom(Dec::new(24400, 4), config), Ok((36, 25)));
    assert_eq!(decimal_to_fractional_custom(Dec::new(24500, 4), config), Ok((29, 20)));
    assert_eq!(decimal_to_fractional_custom(Dec::new(24600, 4), config), Ok((73, 50)));
    assert_eq!(decimal_to_fractional_custom(Dec::new(24800, 4), config), Ok((37, 25)));
    assert_eq!(decimal_to_fractional_custom(Dec::new(25000, 4), config), Ok((6, 4)));
    assert_eq!(decimal_to_fractional_custom(Dec::new(25200, 4), config), Ok((38, 25)));
    assert_eq!(decimal_to_fractional_custom(Dec::new(25400, 4), config), Ok((77, 50)));
    assert_eq!(decimal_to_fractional_custom(Dec::new(25600, 4), config), Ok((39, 25)));
    assert_eq!(decimal_to_fractional_custom(Dec::new(25800, 4), config), Ok((79, 50)));
    assert_eq!(decimal_to_fractional_custom(Dec::new(26000, 4), config), Ok((8, 5)));
    assert_eq!(decimal_to_fractional_custom(Dec::new(26200, 4), config), Ok((13, 8)));
    assert_eq!(decimal_to_fractional_custom(Dec::new(26400, 4), config), Ok((41, 25)));
    assert_eq!(decimal_to_fractional_custom(Dec::new(26600, 4), config), Ok((83, 50)));
    assert_eq!(decimal_to_fractional_custom(Dec::new(26800, 4), config), Ok((42, 25)));
    assert_eq!(decimal_to_fractional_custom(Dec::new(27000, 4), config), Ok((17, 10)));
    assert_eq!(decimal_to_fractional_custom(Dec::new(27200, 4), config), Ok((43, 25)));
    assert_eq!(decimal_to_fractional_custom(Dec::new(27400, 4), config), Ok((87, 50)));
    assert_eq!(decimal_to_fractional_custom(Dec::new(27500, 4), config), Ok((7, 4)));
    assert_eq!(decimal_to_fractional_custom(Dec::new(27600, 4), config), Ok((44, 25)));
    assert_eq!(decimal_to_fractional_custom(Dec::new(27800, 4), config), Ok((89, 50)));
    assert_eq!(decimal_to_fractional_custom(Dec::new(28000, 4), config), Ok((9, 5)));
    assert_eq!(decimal_to_fractional_custom(Dec::new(28200, 4), config), Ok((91, 50)));
    assert_eq!(decimal_to_fractional_custom(Dec::new(28400, 4), config), Ok((46, 25)));
    assert_eq!(decimal_to_fractional_custom(Dec::new(28600, 4), config), Ok((93, 50)));
    assert_eq!(decimal_to_fractional_custom(Dec::new(28700, 4), config), Ok((15, 8)));
    assert_eq!(decimal_to_fractional_custom(Dec::new(28800, 4), config), Ok((15, 8)));
    assert_eq!(decimal_to_fractional_custom(Dec::new(29000, 4), config), Ok((19, 10)));
    assert_eq!(decimal_to_fractional_custom(Dec::new(29200, 4), config), Ok((48, 25)));
    assert_eq!(decimal_to_fractional_custom(Dec::new(29400, 4), config), Ok((97, 50)));
    assert_eq!(decimal_to_fractional_custom(Dec::new(29600, 4), config), Ok((49, 25)));
    assert_eq!(decimal_to_fractional_custom(Dec::new(29800, 4), config), Ok((99, 50)));
    assert_eq!(decimal_to_fractional_custom(Dec::new(30000, 4), config), Ok((2, 1)));
    assert_eq!(decimal_to_fractional_custom(Dec::new(30500, 4), config), Ok((41, 20)));
    assert_eq!(decimal_to_fractional_custom(Dec::new(31000, 4), config), Ok((21, 10)));
    assert_eq!(decimal_to_fractional_custom(Dec::new(31250, 4), config), Ok((85, 40)));
    assert_eq!(decimal_to_fractional_custom(Dec::new(31500, 4), config), Ok((43, 20)));
    assert_eq!(decimal_to_fractional_custom(Dec::new(32000, 4), config), Ok((11, 5)));
    assert_eq!(decimal_to_fractional_custom(Dec::new(32500, 4), config), Ok((9, 4)));
    assert_eq!(decimal_to_fractional_custom(Dec::new(33000, 4), config), Ok((23, 10)));
    assert_eq!(decimal_to_fractional_custom(Dec::new(33500, 4), config), Ok((47, 20)));
    assert_eq!(decimal_to_fractional_custom(Dec::new(34000, 4), config), Ok((12, 5)));
    assert_eq!(decimal_to_fractional_custom(Dec::new(34500, 4), config), Ok((49, 20)));
    assert_eq!(decimal_to_fractional_custom(Dec::new(35000, 4), config), Ok((5, 2)));
    assert_eq!(decimal_to_fractional_custom(Dec::new(35500, 4), config), Ok((51, 20)));
    assert_eq!(decimal_to_fractional_custom(Dec::new(36000, 4), config), Ok((13, 5)));
    assert_eq!(decimal_to_fractional_custom(Dec::new(36500, 4), config), Ok((53, 20)));
    assert_eq!(decimal_to_fractional_custom(Dec::new(37000, 4), config), Ok((27, 10)));
    assert_eq!(decimal_to_fractional_custom(Dec::new(37500, 4), config), Ok((11, 4)));
    assert_eq!(decimal_to_fractional_custom(Dec::new(38000, 4), config), Ok((14, 5)));
    assert_eq!(decimal_to_fractional_custom(Dec::new(38500, 4), config), Ok((57, 20)));
    assert_eq!(decimal_to_fractional_custom(Dec::new(39500, 4), config), Ok((59, 20)));
    assert_eq!(decimal_to_fractional_custom(Dec::new(40000, 4), config), Ok((3, 1)));
    assert_eq!(decimal_to_fractional_custom(Dec::new(40500, 4), config), Ok((61, 20)));
    assert_eq!(decimal_to_fractional_custom(Dec::new(41000, 4), config), Ok((31, 10)));
    assert_eq!(decimal_to_fractional_custom(Dec::new(41500, 4), config), Ok((63, 20)));
    assert_eq!(decimal_to_fractional_custom(Dec::new(42000, 4), config), Ok((16, 5)));
    assert_eq!(decimal_to_fractional_custom(Dec::new(42500, 4), config), Ok((13, 4)));
    assert_eq!(decimal_to_fractional_custom(Dec::new(43000, 4), config), Ok((33, 10)));
    assert_eq!(decimal_to_fractional_custom(Dec::new(43300, 4), config), Ok((10, 3)));
    assert_eq!(decimal_to_fractional_custom(Dec::new(43500, 4), config), Ok((67, 20)));
    assert_eq!(decimal_to_fractional_custom(Dec::new(44000, 4), config), Ok((17, 5)));
    assert_eq!(decimal_to_fractional_custom(Dec::new(44500, 4), config), Ok((69, 20)));
    assert_eq!(decimal_to_fractional_custom(Dec::new(45000, 4), config), Ok((7, 2)));
    assert_eq!(decimal_to_fractional_custom(Dec::new(45500, 4), config), Ok((71, 20)));
    assert_eq!(decimal_to_fractional_custom(Dec::new(46000, 4), config), Ok((18, 5)));
    assert_eq!(decimal_to_fractional_custom(Dec::new(46500, 4), config), Ok((73, 20)));
    assert_eq!(decimal_to_fractional_custom(Dec::new(47000, 4), config), Ok((37, 10)));
    assert_eq!(decimal_to_fractional_custom(Dec::new(47500, 4), config), Ok((15, 4)));
    assert_eq!(decimal_to_fractional_custom(Dec::new(48000, 4), config), Ok((19, 5)));
    assert_eq!(decimal_to_fractional_custom(Dec::new(48500, 4), config), Ok((77, 20)));
    assert_eq!(decimal_to_fractional_custom(Dec::new(49000, 4), config), Ok((39, 10)));
    assert_eq!(decimal_to_fractional_custom(Dec::new(49500, 4), config), Ok((79, 20)));
    assert_eq!(decimal_to_fractional_custom(Dec::new(50000, 4), config), Ok((4, 1)));
    assert_eq!(decimal_to_fractional_custom(Dec::new(51000, 4), config), Ok((41, 10)));
    assert_eq!(decimal_to_fractional_custom(Dec::new(52000, 4), config), Ok((21, 5)));
    assert_eq!(decimal_to_fractional_custom(Dec::new(53000, 4), config), Ok((43, 10)));
    assert_eq!(decimal_to_fractional_custom(Dec::new(54000, 4), config), Ok((22, 5)));
    assert_eq!(decimal_to_fractional_custom(Dec::new(55000, 4), config), Ok((9, 2)));
    assert_eq!(decimal_to_fractional_custom(Dec::new(56000, 4), config), Ok((23, 5)));
    assert_eq!(decimal_to_fractional_custom(Dec::new(57000, 4), config), Ok((47, 10)));
    assert_eq!(decimal_to_fractional_custom(Dec::new(58000, 4), config), Ok((24, 5)));
    assert_eq!(decimal_to_fractional_custom(Dec::new(59000, 4), config), Ok((49, 10)));
    assert_eq!(decimal_to_fractional_custom(Dec::new(60000, 4), config), Ok((5, 1)));
    assert_eq!(decimal_to_fractional_custom(Dec::new(62000, 4), config), Ok((26, 5)));
    assert_eq!(decimal_to_fractional_custom(Dec::new(64000, 4), config), Ok((27, 5)));
    assert_eq!(decimal_to_fractional_custom(Dec::new(65000, 4), config), Ok((11, 2)));
    assert_eq!(decimal_to_fractional_custom(Dec::new(66000, 4), config), Ok((28, 5)));
    assert_eq!(decimal_to_fractional_custom(Dec::new(68000, 4), config), Ok((29, 5)));
    assert_eq!(decimal_to_fractional_custom(Dec::new(70000, 4), config), Ok((6, 1)));
    assert_eq!(decimal_to_fractional_custom(Dec::new(72000, 4), config), Ok((31, 5)));
    assert_eq!(decimal_to_fractional_custom(Dec::new(74000, 4), config), Ok((32, 5)));
    assert_eq!(decimal_to_fractional_custom(Dec::new(75000, 4), config), Ok((13, 2)));
    assert_eq!(decimal_to_fractional_custom(Dec::new(76000, 4), config), Ok((33, 5)));
    assert_eq!(decimal_to_fractional_custom(Dec::new(78000, 4), config), Ok((34, 5)));
    assert_eq!(decimal_to_fractional_custom(Dec::new(80000, 4), config), Ok((7, 1)));
    assert_eq!(decimal_to_fractional_custom(Dec::new(82000, 4), config), Ok((36, 5)));
    assert_eq!(decimal_to_fractional_custom(Dec::new(84000, 4), config), Ok((37, 5)));
    assert_eq!(decimal_to_fractional_custom(Dec::new(85000, 4), config), Ok((15, 2)));
    assert_eq!(decimal_to_fractional_custom(Dec::new(86000, 4), config), Ok((38, 5)));
    assert_eq!(decimal_to_fractional_custom(Dec::new(88000, 4), config), Ok((39, 5)));
    assert_eq!(decimal_to_fractional_custom(Dec::new(90000, 4), config), Ok((8, 1)));
    assert_eq!(decimal_to_fractional_custom(Dec::new(92000, 4), config), Ok((41, 5)));
    assert_eq!(decimal_to_fractional_custom(Dec::new(94000, 4), config), Ok((42, 5)));
    assert_eq!(decimal_to_fractional_custom(Dec::new(95000, 4), config), Ok((17, 2)));
    assert_eq!(decimal_to_fractional_custom(Dec::new(96000, 4), config), Ok((43, 5)));
    assert_eq!(decimal_to_fractional_custom(Dec::new(98000, 4), config), Ok((44, 5)));
    assert_eq!(decimal_to_fractional_custom(Dec::new(100000, 4), config), Ok((9, 1)));
    assert_eq!(decimal_to_fractional_custom(Dec::new(110000, 4), config), Ok((10, 1)));
    assert_eq!(decimal_to_fractional_custom(Dec::new(120000, 4), config), Ok((11, 1)));
    assert_eq!(decimal_to_fractional_custom(Dec::new(130000, 4), config), Ok((12, 1)));
    assert_eq!(decimal_to_fractional_custom(Dec::new(140000, 4), config), Ok((13, 1)));
    assert_eq!(decimal_to_fractional_custom(Dec::new(150000, 4), config), Ok((14, 1)));
    assert_eq!(decimal_to_fractional_custom(Dec::new(160000, 4), config), Ok((15, 1)));
    assert_eq!(decimal_to_fractional_custom(Dec::new(170000, 4), config), Ok((16, 1)));
    assert_eq!(decimal_to_fractional_custom(Dec::new(190000, 4), config), Ok((18, 1)));
    assert_eq!(decimal_to_fractional_custom(Dec::new(210000, 4), config), Ok((20, 1)));
    assert_eq!(decimal_to_fractional_custom(Dec::new(230000, 4), config), Ok((22, 1)));
    assert_eq!(decimal_to_fractional_custom(Dec::new(260000, 4), config), Ok((25, 1)));
    assert_eq!(decimal_to_fractional_custom(Dec::new(290000, 4), config), Ok((28, 1)));
    assert_eq!(decimal_to_fractional_custom(Dec::new(310000, 4), config), Ok((30, 1)));
    assert_eq!(decimal_to_fractional_custom(Dec::new(340000, 4), config), Ok((33, 1)));
    assert_eq!(decimal_to_fractional_custom(Dec::new(360000, 4), config), Ok((35, 1)));
    assert_eq!(decimal_to_fractional_custom(Dec::new(410000, 4), config), Ok((40, 1)));
    assert_eq!(decimal_to_fractional_custom(Dec::new(460000, 4), config), Ok((45, 1)));
    assert_eq!(decimal_to_fractional_custom(Dec::new(510000, 4), config), Ok((50, 1)));
    assert_eq!(decimal_to_fractional_custom(Dec::new(560000, 4), config), Ok((55, 1)));
    assert_eq!(decimal_to_fractional_custom(Dec::new(610000, 4), config), Ok((60, 1)));
    assert_eq!(decimal_to_fractional_custom(Dec::new(670000, 4), config), Ok((66, 1)));
    assert_eq!(decimal_to_fractional_custom(Dec::new(710000, 4), config), Ok((70, 1)));
    assert_eq!(decimal_to_fractional_custom(Dec::new(760000, 4), config), Ok((75, 1)));
    assert_eq!(decimal_to_fractional_custom(Dec::new(810000, 4), config), Ok((80, 1)));
    assert_eq!(decimal_to_fractional_custom(Dec::new(860000, 4), config), Ok((85, 1)));
    assert_eq!(decimal_to_fractional_custom(Dec::new(910000, 4), config), Ok((90, 1)));
    assert_eq!(decimal_to_fractional_custom(Dec::new(960000, 4), config), Ok((95, 1)));
    assert_eq!(decimal_to_fractional_custom(Dec::new(1010000, 4), config), Ok((100, 1)));
    assert_eq!(decimal_to_fractional_custom(Dec::new(1110000, 4), config), Ok((110, 1)));
    assert_eq!(decimal_to_fractional_custom(Dec::new(1210000, 4), config), Ok((120, 1)));
    assert_eq!(decimal_to_fractional_custom(Dec::new(1260000, 4), config), Ok((125, 1)));
    assert_eq!(decimal_to_fractional_custom(Dec::new(1310000, 4), config), Ok((130, 1)));
    assert_eq!(decimal_to_fractional_custom(Dec::new(1410000, 4), config), Ok((140, 1)));
    assert_eq!(decimal_to_fractional_custom(Dec::new(1510000, 4), config), Ok((150, 1)));
    assert_eq!(decimal_to_fractional_custom(Dec::new(1760000, 4), config), Ok((175, 1)));
    assert_eq!(decimal_to_fractional_custom(Dec::new(2010000, 4), config), Ok((200, 1)));
    assert_eq!(decimal_to_fractional_custom(Dec::new(2260000, 4), config), Ok((225, 1)));
    assert_eq!(decimal_to_fractional_custom(Dec::new(2510000, 4), config), Ok((250, 1)));
    assert_eq!(decimal_to_fractional_custom(Dec::new(2760000, 4), config), Ok((275, 1)));
    assert_eq!(decimal_to_fractional_custom(Dec::new(3010000, 4), config), Ok((300, 1)));
    assert_eq!(decimal_to_fractional_custom(Dec::new(4010000, 4), config), Ok((400, 1)));
    assert_eq!(decimal_to_fractional_custom(Dec::new(5010000, 4), config), Ok((500, 1)));
    assert_eq!(decimal_to_fractional_custom(Dec::new(10010000, 4), config), Ok((1000, 1)));
}
